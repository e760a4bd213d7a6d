use yantrikdb_explorer::lifecycle::{Action, Snapshots, Stage, Task, Which};

/// Makes steps until there is none, the first `action` failing.
fn run(s: &mut Snapshots, failing: Option<Action>) -> Vec<Action> {
    let mut made = Vec::new();
    while s.action() != Action::Rest {
        let action = s.action();
        made.push(action);
        s.done(if Some(action) == failing {
            Err(format!("{action:?} failed"))
        } else {
            Ok(())
        });
    }
    made
}

const BUILD: [Action; 5] = [
    Action::MakeDir,
    Action::Copy,
    Action::OpenEngine,
    Action::AttachEmbedder,
    Action::SpawnWorkers,
];

fn running() -> Snapshots {
    let mut s = Snapshots::none();
    s.open();
    assert_eq!(run(&mut s, None), BUILD);
    assert_eq!((s.current, s.fresh, s.task), (Stage::Running, Stage::Gone, Task::Resting));
    assert!(s.report.is_ok());
    s
}

#[test]
fn a_fresh_snapshot_replaces_the_current_one() {
    let mut s = running();
    s.open();
    let made = run(&mut s, None);
    assert_eq!(made[..5], BUILD);
    assert_eq!(
        made[5..],
        [
            Action::StopWorkers(Which::Current),
            Action::CloseEngine(Which::Current),
            Action::RemoveDir(Which::Current),
        ]
    );
    assert_eq!((s.current, s.fresh), (Stage::Running, Stage::Gone));
    assert!(s.report.is_ok());
}

#[test]
fn a_failed_opening_leaves_nothing_of_the_fresh_snapshot() {
    let removal = [Action::RemoveDir(Which::Fresh)];
    let closing = [Action::CloseEngine(Which::Fresh), Action::RemoveDir(Which::Fresh)];
    for (failing, expected) in [
        (Action::MakeDir, &[][..]),
        (Action::Copy, &removal[..]),
        (Action::OpenEngine, &removal[..]),
        (Action::AttachEmbedder, &closing[..]),
    ] {
        for mut s in [Snapshots::none(), running()] {
            let before = s.current;
            s.open();
            let made = run(&mut s, Some(failing));
            let n = BUILD.iter().position(|a| *a == failing).unwrap() + 1;
            assert_eq!(made[..n], BUILD[..n]);
            assert_eq!(made[n..], *expected);
            assert_eq!((s.current, s.fresh, s.task), (before, Stage::Gone, Task::Resting));
            assert_eq!(s.report, Err(format!("{failing:?} failed")));
        }
    }
}

#[test]
fn an_engine_that_does_not_close_is_reported_only_on_closing() {
    let mut s = running();
    s.open();
    run(&mut s, Some(Action::CloseEngine(Which::Current)));
    assert!(s.report.is_ok());
    assert_eq!(s.current, Stage::Running);
    s.close();
    let made = run(&mut s, Some(Action::CloseEngine(Which::Current)));
    assert_eq!(
        made,
        [
            Action::StopWorkers(Which::Current),
            Action::CloseEngine(Which::Current),
            Action::RemoveDir(Which::Current),
        ]
    );
    assert_eq!(s.report, Err("CloseEngine(Current) failed".to_string()));
    assert_eq!((s.current, s.fresh), (Stage::Gone, Stage::Gone));
    s.close();
    assert_eq!(s.action(), Action::Rest);
    assert!(s.report.is_ok());
}

#[test]
fn removals_are_best_effort() {
    for failing in [
        Action::StopWorkers(Which::Current),
        Action::RemoveDir(Which::Current),
    ] {
        let mut s = running();
        s.close();
        assert_eq!(run(&mut s, Some(failing)).len(), 3);
        assert!(s.report.is_ok());
        assert_eq!((s.current, s.fresh), (Stage::Gone, Stage::Gone));
    }
}
