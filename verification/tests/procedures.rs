use udx710_ota::procedure::{
    ignore_failures, ignored, needed, when_exists, Action, Command, Event, OnFailure, Procedure,
    Run, Step,
};

fn remove(path: &str) -> Command {
    Command::RemoveFile(path.to_string())
}

fn unpack() -> Command {
    Command::RunChecked {
        program: "unzip".to_string(),
        args: vec![],
    }
}

fn sample() -> Procedure {
    Procedure {
        steps: vec![
            ignored(remove("a")),
            when_exists("b".to_string(), needed(remove("b"), "no b: ".to_string())),
            needed(remove("c"), "no c: ".to_string()),
            ignored(remove("d")),
        ],
        cleanup: vec![
            when_exists("x".to_string(), needed(remove("x"), "no x: ".to_string())),
            needed(remove("y"), "no y: ".to_string()),
        ],
    }
}

/// Carries out `procedure` with the given answers; returns what was asked for, in words.
fn trace(procedure: Procedure, answers: Vec<Event>) -> (Vec<String>, Option<Result<(), String>>) {
    let mut run = Run::new(procedure);
    let mut asked = Vec::new();
    for event in answers {
        match run.action() {
            Action::Probe(path) => asked.push(format!("? {}", path)),
            Action::Perform(Command::RemoveFile(path)) => asked.push(format!("- {}", path)),
            Action::Perform(_) => asked.push("other".to_string()),
            Action::Finished(result) => return (asked, Some(result)),
        }
        run = run.advance(event);
    }
    match run.action() {
        Action::Finished(result) => (asked, Some(result)),
        _ => (asked, None),
    }
}

fn failed(e: &str) -> Event {
    Event::Failed(e.to_string())
}

#[test]
fn steps_are_taken_in_order() {
    let (asked, result) = trace(
        sample(),
        vec![
            failed("ignored"),
            Event::Exists(true),
            Event::Done,
            Event::Done,
            failed("ignored"),
        ],
    );
    assert_eq!(asked, ["- a", "? b", "- b", "- c", "- d"]);
    assert_eq!(result, Some(Ok(())));
}

#[test]
fn a_step_without_its_path_is_left_out() {
    let (asked, result) = trace(
        sample(),
        vec![Event::Done, Event::Exists(false), Event::Done, Event::Done],
    );
    assert_eq!(asked, ["- a", "? b", "- c", "- d"]);
    assert_eq!(result, Some(Ok(())));
}

#[test]
fn a_failure_leads_to_the_cleanup() {
    let (asked, result) = trace(
        sample(),
        vec![
            Event::Done,
            Event::Exists(false),
            failed("denied"),
            Event::Exists(true),
            failed("still there"),
            failed("not there"),
        ],
    );
    assert_eq!(asked, ["- a", "? b", "- c", "? x", "- x", "- y"]);
    assert_eq!(result, Some(Err("no c: denied".to_string())));
}

#[test]
fn a_procedure_ends_in_time() {
    let answers = (0..12).map(|_| Event::Exists(true)).collect();
    let (_, result) = trace(sample(), answers);
    assert_eq!(result, Some(Ok(())));
}

#[test]
fn nothing_happens_after_the_end() {
    let mut run = Run::new(Procedure {
        steps: vec![],
        cleanup: vec![ignored(remove("x"))],
    });
    assert_eq!(run.action(), Action::Finished(Ok(())));
    run = run.advance(failed("late"));
    assert_eq!(run.action(), Action::Finished(Ok(())));
}

#[test]
fn the_exit_status_counts_where_it_is_checked() {
    let exited = |success: bool| Event::Exited {
        success,
        stderr: "bad archive".to_string(),
    };
    let step = || Step {
        guard: None,
        command: unpack(),
        on_failure: OnFailure::Abort {
            before: "Failed: ".to_string(),
            after: ". Install it.".to_string(),
        },
    };
    let procedure = || Procedure {
        steps: vec![step()],
        cleanup: vec![],
    };
    assert_eq!(trace(procedure(), vec![exited(true)]).1, Some(Ok(())));
    assert_eq!(
        trace(procedure(), vec![exited(false)]).1,
        Some(Err("Failed: bad archive".to_string()))
    );
    assert_eq!(
        trace(procedure(), vec![failed("not found")]).1,
        Some(Err("Failed: not found. Install it.".to_string()))
    );
    let unchecked = Procedure {
        steps: vec![needed(
            Command::Run {
                program: "chmod".to_string(),
                args: vec![],
            },
            "Failed: ".to_string(),
        )],
        cleanup: vec![],
    };
    assert_eq!(trace(unchecked, vec![exited(false)]).1, Some(Ok(())));
}

#[test]
fn ignoring_failures_keeps_the_rest() {
    let steps = vec![
        when_exists("b".to_string(), needed(remove("b"), "no b: ".to_string())),
        ignored(remove("a")),
    ];
    assert_eq!(
        ignore_failures(steps),
        vec![
            when_exists("b".to_string(), ignored(remove("b"))),
            ignored(remove("a")),
        ]
    );
}
