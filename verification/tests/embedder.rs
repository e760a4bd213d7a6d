use yantrikdb_explorer::embedder::{Attachment, Identity, Reply, SearchState};

fn identity(name: Option<&str>, digest: &str, dim: usize) -> Identity {
    Identity {
        name: name.map(String::from),
        digest: digest.to_string(),
        dim,
    }
}

fn recorded(name: Option<&str>, digest: &str, dim: usize) -> Reply {
    Reply::Identity(Ok(Some(identity(name, digest, dim))), "shown".to_string())
}

fn run(replies: Vec<Reply>) -> SearchState {
    let mut stage = Attachment::Reading;
    for reply in replies {
        stage = stage.step(reply);
    }
    match stage {
        Attachment::Settled(state) => state,
        _ => panic!("not settled"),
    }
}

fn ready(state: SearchState) -> String {
    match state {
        SearchState::Ready(note) => note,
        SearchState::Disabled(note) => panic!("disabled: {note}"),
    }
}

fn disabled(state: SearchState) -> String {
    match state {
        SearchState::Disabled(note) => note,
        SearchState::Ready(note) => panic!("ready: {note}"),
    }
}

fn failed(why: &str) -> Reply {
    Reply::Done(Err(why.to_string()))
}

#[test]
fn a_verified_embedder_is_ready() {
    let state = run(vec![
        recorded(Some("potion-base-8M"), "d", 256),
        Reply::Done(Ok(())),
        recorded(None, "d", 256),
    ]);
    assert_eq!(ready(state), "embedder potion-base-8M · 256-d · verified");
    let state = run(vec![recorded(None, "d", 64), Reply::Done(Ok(())), recorded(None, "d", 64)]);
    assert_eq!(ready(state), "embedder bundled · 64-d · verified");
}

#[test]
fn a_store_without_a_record_is_ready_unverified() {
    let state = run(vec![Reply::Identity(Ok(None), String::new())]);
    assert_eq!(ready(state), "no recorded embedder identity · engine default attached, unverified");
}

#[test]
fn the_recorded_model_is_attached_by_name() {
    let state = run(vec![
        recorded(Some("m"), "d", 8),
        failed("differs"),
        Reply::Done(Ok(())),
        Reply::Done(Ok(())),
        recorded(Some("m"), "d", 8),
    ]);
    assert_eq!(ready(state), "embedder m · 8-d · verified");
}

#[test]
fn anything_short_of_a_match_disables_search() {
    let state = run(vec![Reply::Identity(Err("io".into()), String::new())]);
    assert_eq!(disabled(state), "search disabled: embedder identity unreadable: io");
    let state = run(vec![recorded(Some("m"), "d", 8), failed("x"), failed("no file"), recorded(None, "d", 8)]);
    assert_eq!(
        disabled(state),
        "search disabled: store needs embedder m (8-d), which could not be attached: no file"
    );
    let state = run(vec![
        recorded(Some("m"), "d", 8),
        failed("x"),
        Reply::Done(Ok(())),
        failed("digest"),
        recorded(None, "d", 8),
    ]);
    assert_eq!(
        disabled(state),
        "search disabled: m attached but its digest differs from the store's: digest"
    );
    let state = run(vec![recorded(None, "d", 8), failed("x"), recorded(None, "d", 8)]);
    assert_eq!(
        disabled(state),
        "search disabled: the store's embedder is unnamed (d, 8-d) and is not the one attached"
    );
}

#[test]
fn a_record_that_changed_disables_search() {
    for changed in [
        recorded(None, "other", 8),
        recorded(None, "d", 9),
        Reply::Identity(Ok(None), "shown".to_string()),
        Reply::Identity(Err("gone".into()), "shown".to_string()),
    ] {
        let state = run(vec![recorded(None, "d", 8), Reply::Done(Ok(())), changed]);
        assert_eq!(
            disabled(state),
            "search disabled: the recorded embedder identity changed while attaching (was d/8-d, now shown)"
        );
    }
}
