use yantrikdb_explorer::snapshot::{
    after_backup_step, after_make_dir, after_remove_dir, root, BackupStep, CreateNext, MakeDir,
    RemoveDir, RemoveNext, SnapshotGuard,
};

#[test]
fn directories_are_named_by_process_and_number() {
    let guard = SnapshotGuard::candidate(4711, 0xbeef);
    assert_eq!(guard.dir, ["yantrikdb-tui", "4711-000000000000beef"]);
    assert_eq!(guard.db_path(), ["yantrikdb-tui", "4711-000000000000beef", "snapshot.db"]);
    assert_eq!(root(), ["yantrikdb-tui"]);
}

#[test]
fn drawn_directories_differ() {
    let a = SnapshotGuard::draw(7);
    let b = SnapshotGuard::draw(7);
    assert_ne!(a.dir, b.dir);
    assert_eq!(a.dir[0], "yantrikdb-tui");
    assert!(a.dir[1].starts_with("7-"));
    assert_eq!(a.dir[1].len(), 18);
    assert_ne!(a.db_path(), b.db_path());
}

#[test]
fn distinct_draws_have_distinct_names() {
    assert_ne!(SnapshotGuard::candidate(1, 2).dir, SnapshotGuard::candidate(1, 3).dir);
    assert_ne!(SnapshotGuard::candidate(1, 2).dir, SnapshotGuard::candidate(11, 2).dir);
}

/// Creates a directory among `existing`, as an explorer does it; `draws` are
/// the directories that it draws.
fn create(
    existing: &mut Vec<Vec<String>>,
    mut draws: impl FnMut() -> SnapshotGuard,
) -> Result<SnapshotGuard, String> {
    let mut attempt = 0;
    loop {
        let guard = draws();
        let outcome = if existing.contains(&guard.dir) {
            MakeDir::AlreadyExists
        } else {
            existing.push(guard.dir.clone());
            MakeDir::Done
        };
        match after_make_dir(attempt, outcome) {
            CreateNext::Keep => return Ok(guard),
            CreateNext::TryAnother => attempt += 1,
            CreateNext::Fail(why) => return Err(why),
        }
    }
}

/// Removes a directory from `existing`.
fn remove(existing: &mut Vec<Vec<String>>, guard: SnapshotGuard) {
    let outcome = if existing.contains(&guard.dir) {
        RemoveDir::Done
    } else {
        RemoveDir::NotFound
    };
    existing.retain(|dir| *dir != guard.dir);
    assert_eq!(after_remove_dir(0, outcome), RemoveNext::Gone);
}

#[test]
fn snapshot_directories_are_created_exclusively() {
    let mut existing = Vec::new();
    let a = create(&mut existing, || SnapshotGuard::draw(7)).unwrap();
    let b = create(&mut existing, || SnapshotGuard::draw(7)).unwrap();
    assert_ne!(a.dir, b.dir);
    assert!(existing.contains(&a.dir) && existing.contains(&b.dir));
    let (da, db_) = (a.dir.clone(), b.dir.clone());
    remove(&mut existing, a);
    remove(&mut existing, b);
    assert!(!existing.contains(&da) && !existing.contains(&db_));
}

#[test]
fn a_name_left_by_another_is_passed_over() {
    let mut existing = vec![SnapshotGuard::candidate(7, 0).dir, SnapshotGuard::candidate(7, 1).dir];
    let mut nonce = 0;
    let guard = create(&mut existing, || {
        nonce += 1;
        SnapshotGuard::candidate(7, nonce - 1)
    });
    assert_eq!(guard.unwrap().dir, SnapshotGuard::candidate(7, 2).dir);
    let mut tries = 0;
    let refused = create(&mut existing, || {
        tries += 1;
        SnapshotGuard::candidate(7, 1)
    });
    assert_eq!(refused.err().unwrap(), "could not create a private snapshot directory");
    assert_eq!(tries, 16);
}

#[test]
fn a_taken_name_is_never_used() {
    assert!(matches!(after_make_dir(0, MakeDir::Done), CreateNext::Keep));
    assert!(matches!(after_make_dir(15, MakeDir::Done), CreateNext::Keep));
    assert!(matches!(after_make_dir(14, MakeDir::AlreadyExists), CreateNext::TryAnother));
    match after_make_dir(15, MakeDir::AlreadyExists) {
        CreateNext::Fail(why) => assert_eq!(why, "could not create a private snapshot directory"),
        _ => panic!("the last try must fail"),
    }
    match after_make_dir(3, MakeDir::Failed("denied".into())) {
        CreateNext::Fail(why) => assert_eq!(why, "denied"),
        _ => panic!("an error must fail"),
    }
}

#[test]
fn a_removal_is_tried_forty_times() {
    assert_eq!(after_remove_dir(0, RemoveDir::Done), RemoveNext::Gone);
    assert_eq!(after_remove_dir(0, RemoveDir::NotFound), RemoveNext::Gone);
    let mut waited = 0;
    let mut attempt = 0;
    while let RemoveNext::RetryAfter(pause) = after_remove_dir(attempt, RemoveDir::Failed) {
        waited += pause;
        attempt += 1;
    }
    assert_eq!(attempt, 39);
    assert_eq!(waited, 1950);
    assert_eq!(after_remove_dir(39, RemoveDir::Failed), RemoveNext::GiveUp);
}

#[test]
fn a_backup_is_done_in_one_step_or_not_at_all() {
    assert!(after_backup_step(BackupStep::Done).is_ok());
    for (step, name) in [
        (BackupStep::More, "More"),
        (BackupStep::Busy, "Busy"),
        (BackupStep::Locked, "Locked"),
    ] {
        assert_eq!(
            after_backup_step(step).err().unwrap(),
            format!("snapshot did not complete in one step: {name}")
        );
    }
}
