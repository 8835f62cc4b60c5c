use udx710_ota::copy::{copy_dir_recursive, CopyAction, CopyEvent, DirEntry, TreeCopy};

fn entry(name: &str, is_dir: bool) -> Result<DirEntry, String> {
    Ok(DirEntry {
        raw_name: name.as_bytes().to_vec(),
        shown: name.to_string(),
        is_utf8: true,
        is_dir,
    })
}

fn in_words(copy: &TreeCopy) -> String {
    match copy.action() {
        CopyAction::CreateDirAll(path) => format!("mkdir {}", path),
        CopyAction::ReadDir(path) => format!("list {}", path),
        CopyAction::CopyFile { from, to, raw_name } => format!(
            "copy {} {} {}",
            from,
            to,
            String::from_utf8_lossy(raw_name)
        ),
        CopyAction::Finished(Ok(())) => "done".to_string(),
        CopyAction::Finished(Err(e)) => format!("error {}", e),
    }
}

fn trace(events: Vec<CopyEvent>) -> Vec<String> {
    let mut copy = copy_dir_recursive("/s", "/t");
    let mut words = vec![in_words(&copy)];
    for event in events {
        copy = copy.advance(event);
        words.push(in_words(&copy));
    }
    words
}

fn failed(e: &str) -> CopyEvent {
    CopyEvent::Failed(e.to_string())
}

#[test]
fn a_tree_is_reproduced() {
    assert_eq!(
        trace(vec![
            CopyEvent::Done,
            CopyEvent::Entries(vec![
                entry("udx710", false),
                entry("www", true),
                entry("meta.json", false),
            ]),
            CopyEvent::Done,
            CopyEvent::Done,
            CopyEvent::Entries(vec![entry("js", true), entry("index.html", false)]),
            CopyEvent::Done,
            CopyEvent::Entries(vec![]),
            CopyEvent::Done,
            CopyEvent::Done,
        ]),
        [
            "mkdir /t",
            "list /s",
            "copy /s /t udx710",
            "mkdir /t/www",
            "list /s/www",
            "mkdir /t/www/js",
            "list /s/www/js",
            "copy /s/www /t/www index.html",
            "copy /s /t meta.json",
            "done",
        ]
    );
}

#[test]
fn an_empty_tree() {
    assert_eq!(
        trace(vec![CopyEvent::Done, CopyEvent::Entries(vec![])]),
        ["mkdir /t", "list /s", "done"]
    );
}

#[test]
fn a_target_that_cannot_be_created() {
    assert_eq!(
        trace(vec![failed("full"), CopyEvent::Done]),
        [
            "mkdir /t",
            "error Failed to create dir /t: full",
            "error Failed to create dir /t: full",
        ]
    );
}

#[test]
fn a_source_that_cannot_be_listed() {
    assert_eq!(
        trace(vec![CopyEvent::Done, failed("denied")]),
        ["mkdir /t", "list /s", "error Failed to read src dir /s: denied"]
    );
}

#[test]
fn a_file_that_cannot_be_copied() {
    assert_eq!(
        trace(vec![
            CopyEvent::Done,
            CopyEvent::Entries(vec![entry("a", false), entry("b", false)]),
            failed("full"),
        ]),
        [
            "mkdir /t",
            "list /s",
            "copy /s /t a",
            "error Failed to copy file /s/a: full",
        ]
    );
}

#[test]
fn an_entry_that_cannot_be_read() {
    assert_eq!(
        trace(vec![
            CopyEvent::Done,
            CopyEvent::Entries(vec![entry("a", false), Err("odd".to_string()), entry("b", false)]),
            CopyEvent::Done,
        ]),
        [
            "mkdir /t",
            "list /s",
            "copy /s /t a",
            "error Failed to read entry: odd",
        ]
    );
}

#[test]
fn names_that_are_not_unicode() {
    let odd = |is_dir: bool| {
        Ok(DirEntry {
            raw_name: vec![0x61, 0xff],
            shown: "a\u{fffd}".to_string(),
            is_utf8: false,
            is_dir,
        })
    };
    assert_eq!(
        trace(vec![
            CopyEvent::Done,
            CopyEvent::Entries(vec![odd(false), odd(true)]),
            CopyEvent::Done,
            failed("not found"),
        ]),
        [
            "mkdir /t",
            "list /s",
            "copy /s /t a\u{fffd}",
            "mkdir ",
            "error Failed to create dir : not found",
        ]
    );
}

#[test]
fn only_a_complete_copy_ends_well() {
    let events = || {
        vec![
            CopyEvent::Done,
            CopyEvent::Entries(vec![entry("d", true), entry("f", false)]),
            CopyEvent::Done,
            CopyEvent::Entries(vec![entry("g", false)]),
            CopyEvent::Done,
            CopyEvent::Done,
        ]
    };
    assert_eq!(trace(events()).last(), Some(&"done".to_string()));
    for k in 0..events().len() {
        let mut broken = events();
        broken[k] = failed("broken");
        assert!(trace(broken).last().unwrap().starts_with("error "));
        let mut cut = events();
        cut.truncate(k);
        assert_ne!(trace(cut).last(), Some(&"done".to_string()));
    }
}

#[test]
fn every_file_goes_to_its_place() {
    let words = trace(vec![
        CopyEvent::Done,
        CopyEvent::Entries(vec![entry("d", true), entry("f", false)]),
        CopyEvent::Done,
        CopyEvent::Entries(vec![entry("e", true), entry("f", false)]),
        CopyEvent::Done,
        CopyEvent::Entries(vec![entry("f", false)]),
        CopyEvent::Done,
        CopyEvent::Done,
        CopyEvent::Done,
    ]);
    for copied in ["copy /s /t f", "copy /s/d /t/d f", "copy /s/d/e /t/d/e f"] {
        assert_eq!(words.iter().filter(|w| *w == copied).count(), 1);
    }
    assert_eq!(words.iter().filter(|w| w.starts_with("copy ")).count(), 3);
}
