use udx710_ota::digest::{
    calculate_directory_md5, calculate_file_md5, collect_directory_hashes, directory_payload,
    hex_text, md5_text, DirItem, FileFailure,
};

const MD5_A: &str = "0cc175b9c0f1b6a831c399e269772661";
const MD5_ABC: &str = "900150983cd24fb0d6963f7d28e17f72";

fn file(path: &str, data: &[u8]) -> DirItem {
    DirItem::File {
        path: path.to_string(),
        contents: Ok(data.to_vec()),
    }
}

fn dir(path: &str, items: Vec<DirItem>) -> DirItem {
    DirItem::Dir {
        path: path.to_string(),
        listing: Ok(items),
    }
}

#[test]
fn known_digests() {
    assert_eq!(md5_text(b""), "d41d8cd98f00b204e9800998ecf8427e");
    assert_eq!(md5_text(b"a"), MD5_A);
    assert_eq!(md5_text(b"abc"), MD5_ABC);
    assert_eq!(md5_text(b"abc"), format!("{:x}", md5::compute(b"abc")));
    assert_eq!(hex_text(&[0x00, 0x0f, 0xa5, 0xff]), "000fa5ff");
}

#[test]
fn digest_of_a_file() {
    assert_eq!(
        calculate_file_md5("f", &Ok(b"abc".to_vec())),
        Ok(MD5_ABC.to_string())
    );
    assert_eq!(
        calculate_file_md5("/x/f", &Err(FileFailure::Open("gone".to_string()))),
        Err("Failed to open file /x/f: gone".to_string())
    );
    assert_eq!(
        calculate_file_md5("/x/f", &Err(FileFailure::Read("bad".to_string()))),
        Err("Failed to read file /x/f: bad".to_string())
    );
}

#[test]
fn digest_of_a_directory() {
    let expected = "659ec0332c076195c9533649b8d92636".to_string();
    let flat = Ok(vec![file("w/2", b"abc"), file("w/1", b"a")]);
    assert_eq!(calculate_directory_md5("w", &flat), Ok(expected.clone()));
    let deep = Ok(vec![dir(
        "w/d",
        vec![dir("w/d/e", vec![file("w/d/e/y", b"a")]), file("w/d/x", b"abc")],
    )]);
    assert_eq!(calculate_directory_md5("w", &deep), Ok(expected));
}

#[test]
fn digest_of_an_empty_directory() {
    let nothing = Ok(vec![dir("w/d", vec![])]);
    assert_eq!(
        calculate_directory_md5("w", &nothing),
        Ok("d41d8cd98f00b204e9800998ecf8427e".to_string())
    );
}

#[test]
fn payload_is_sorted_lines() {
    assert_eq!(
        directory_payload(vec!["b".to_string(), "a".to_string(), "b".to_string()]),
        "a\nb\nb\n"
    );
    assert_eq!(directory_payload(vec![]), "");
}

#[test]
fn walk_keeps_what_came_before_a_failure() {
    let mut hashes = vec!["first".to_string()];
    let listing = Ok(vec![
        file("w/1", b"a"),
        DirItem::Dir {
            path: "w/d".to_string(),
            listing: Err("denied".to_string()),
        },
        DirItem::Unreadable("later".to_string()),
        file("w/2", b"abc"),
    ]);
    assert_eq!(
        collect_directory_hashes("w", &listing, &mut hashes),
        Err("Failed to read directory w/d: denied".to_string())
    );
    assert_eq!(hashes, vec!["first".to_string(), MD5_A.to_string()]);
}

#[test]
fn failures_of_a_walk() {
    let unlisted = Err("denied".to_string());
    assert_eq!(
        calculate_directory_md5("w", &unlisted),
        Err("Failed to read directory w: denied".to_string())
    );
    let unread = Ok(vec![DirItem::Unreadable("odd".to_string())]);
    assert_eq!(
        calculate_directory_md5("w", &unread),
        Err("Failed to read directory entry: odd".to_string())
    );
    let broken = Ok(vec![dir(
        "w/d",
        vec![DirItem::File {
            path: "w/d/f".to_string(),
            contents: Err(FileFailure::Open("gone".to_string())),
        }],
    )]);
    assert_eq!(
        calculate_directory_md5("w", &broken),
        Err("Failed to open file w/d/f: gone".to_string())
    );
}

#[test]
fn digests_have_one_length() {
    let listing = Ok(vec![file("w/1", b""), dir("w/d", vec![file("w/d/2", b"abc")])]);
    let mut hashes = Vec::new();
    assert_eq!(collect_directory_hashes("w", &listing, &mut hashes), Ok(()));
    assert!(hashes.iter().all(|hash| hash.len() == 32));
    hashes.sort();
    let lines: String = hashes.iter().map(|hash| format!("{}\n", hash)).collect();
    assert_eq!(
        calculate_directory_md5("w", &listing),
        Ok(md5_text(lines.as_bytes()))
    );
}
