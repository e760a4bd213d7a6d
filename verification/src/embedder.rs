//! Whether a store can be searched: only with the very model that made its
//! vectors.
//!
//! A store records the name, digest and dimension of its embedder. The model
//! that the engine attached is verified against that record; if it differs,
//! the recorded model is attached by its name and verified again. Anything
//! short of a verified match disables search with the reason, and so does a
//! record that is gone, or whose digest or dimension changed, on the way.

use vstd::prelude::*;

use crate::text::{decimal, decimal_of, same_text};

verus! {

/// The recorded identity of an embedder.
pub struct Identity {
    pub name: Option<String>,
    pub digest: String,
    pub dim: usize,
}

/// Whether search is possible, with a note for the user.
pub enum SearchState {
    Ready(String),
    Disabled(String),
}

impl SearchState {
    pub open spec fn note(self) -> Seq<char> {
        match self {
            SearchState::Ready(note) => note@,
            SearchState::Disabled(note) => note@,
        }
    }

    pub open spec fn is_ready(self, note: Seq<char>) -> bool {
        self is Ready && self.note() == note
    }

    pub open spec fn is_disabled(self, note: Seq<char>) -> bool {
        self is Disabled && self.note() == note
    }
}

/// How far the attachment of the embedder has come, which also says what is
/// to be done next.
pub enum Attachment {
    /// The recorded identity is to be read.
    Reading,
    /// The attached embedder is to be verified.
    Verifying(Identity),
    /// The embedder of this name is to be attached.
    Attaching(Identity, String),
    /// The embedder attached by this name is to be verified.
    VerifyingNamed(Identity, String),
    /// The recorded identity is to be read again; this holds if digest and
    /// dimension are the same.
    Rereading(Identity, SearchState),
    /// Nothing is left to do.
    Settled(SearchState),
}

/// What came of it.
pub enum Reply {
    /// What reading the identity gave, and how that is shown to the user.
    Identity(Result<Option<Identity>, String>, String),
    /// What verifying or attaching gave.
    Done(Result<(), String>),
}

/// The name of an embedder for the user.
pub open spec fn label(name: Option<String>) -> Seq<char> {
    match name {
        Some(n) => n@,
        None => "bundled"@,
    }
}

/// The note on a verified embedder.
pub open spec fn verified_note(label: Seq<char>, dim: usize) -> Seq<char> {
    "embedder "@ + label + " · "@ + decimal(dim as nat) + "-d · verified"@
}

/// The note on a model that could not be attached.
pub open spec fn unattached_note(name: Seq<char>, dim: usize, why: Seq<char>) -> Seq<char> {
    "search disabled: store needs embedder "@ + name + " ("@ + decimal(dim as nat)
        + "-d), which could not be attached: "@ + why
}

/// The note on a model that is not the recorded one.
pub open spec fn differing_note(name: Seq<char>, why: Seq<char>) -> Seq<char> {
    "search disabled: "@ + name + " attached but its digest differs from the store's: "@ + why
}

/// The note on a recorded model without a name.
pub open spec fn unnamed_note(digest: Seq<char>, dim: usize) -> Seq<char> {
    "search disabled: the store's embedder is unnamed ("@ + digest + ", "@ + decimal(dim as nat)
        + "-d) and is not the one attached"@
}

/// The note on a record whose digest or dimension changed.
pub open spec fn changed_note(digest: Seq<char>, dim: usize, shown: Seq<char>) -> Seq<char> {
    "search disabled: the recorded embedder identity changed while attaching (was "@ + digest
        + "/"@ + decimal(dim as nat) + "-d, now "@ + shown + ")"@
}

impl Identity {
    /// Whether the record still has the digest and the dimension of `self`.
    pub open spec fn kept_by(self, recorded: Result<Option<Identity>, String>) -> bool {
        recorded matches Ok(Some(now)) && now.digest@ == self.digest@ && now.dim == self.dim
    }
}

impl Attachment {
    /// Whether `reply` answers what is to be done at this stage.
    pub open spec fn awaits(self, reply: Reply) -> bool {
        match self {
            Attachment::Reading | Attachment::Rereading(_, _) => reply is Identity,
            Attachment::Verifying(_)
            | Attachment::Attaching(_, _)
            | Attachment::VerifyingNamed(_, _) => reply is Done,
            Attachment::Settled(_) => false,
        }
    }

    /// Whether `next` is the stage that follows on `reply`.
    pub open spec fn leads_to(self, reply: Reply, next: Attachment) -> bool {
        match (self, reply) {
            (Attachment::Reading, Reply::Identity(recorded, _)) => match recorded {
                Err(e) => next matches Attachment::Settled(state) && state.is_disabled(
                    "search disabled: embedder identity unreadable: "@ + e@,
                ),
                Ok(None) => next matches Attachment::Settled(state) && state.is_ready(
                    "no recorded embedder identity · engine default attached, unverified"@,
                ),
                Ok(Some(identity)) => next == Attachment::Verifying(identity),
            },
            (Attachment::Verifying(identity), Reply::Done(verified)) => if verified is Ok {
                next matches Attachment::Rereading(id, state) && id == identity && state.is_ready(
                    verified_note(label(identity.name), identity.dim),
                )
            } else {
                match identity.name {
                    Some(name) => next == Attachment::Attaching(identity, name),
                    None => next matches Attachment::Rereading(id, state) && id == identity
                        && state.is_disabled(unnamed_note(identity.digest@, identity.dim)),
                }
            },
            (Attachment::Attaching(identity, name), Reply::Done(attached)) => match attached {
                Ok(_) => next == Attachment::VerifyingNamed(identity, name),
                Err(e) => next matches Attachment::Rereading(id, state) && id == identity
                    && state.is_disabled(unattached_note(name@, identity.dim, e@)),
            },
            (Attachment::VerifyingNamed(identity, name), Reply::Done(verified)) => match verified {
                Ok(_) => next matches Attachment::Rereading(id, state) && id == identity
                    && state.is_ready(verified_note(name@, identity.dim)),
                Err(e) => next matches Attachment::Rereading(id, state) && id == identity
                    && state.is_disabled(differing_note(name@, e@)),
            },
            (Attachment::Rereading(identity, outcome), Reply::Identity(recorded, shown)) => {
                next matches Attachment::Settled(state) && if identity.kept_by(recorded) {
                    state == outcome
                } else {
                    state.is_disabled(changed_note(identity.digest@, identity.dim, shown@))
                }
            },
            _ => false,
        }
    }

    /// The stage that follows on `reply`.
    pub fn step(self, reply: Reply) -> (next: Attachment)
        requires
            self.awaits(reply),
        ensures
            self.leads_to(reply, next),
    {
        match (self, reply) {
            (Attachment::Reading, Reply::Identity(recorded, _)) => match recorded {
                Err(e) => Attachment::Settled(
                    SearchState::Disabled(
                        "search disabled: embedder identity unreadable: ".to_owned().concat(
                            e.as_str(),
                        ),
                    ),
                ),
                Ok(None) => Attachment::Settled(
                    SearchState::Ready(
                        "no recorded embedder identity · engine default attached, unverified".to_owned(),
                    ),
                ),
                Ok(Some(identity)) => Attachment::Verifying(identity),
            },
            (Attachment::Verifying(identity), Reply::Done(verified)) => after_first_verification(
                identity,
                verified,
            ),
            (Attachment::Attaching(identity, name), Reply::Done(attached)) => match attached {
                Ok(_) => Attachment::VerifyingNamed(identity, name),
                Err(e) => {
                    let dim = decimal_of(identity.dim as u64);
                    let note = "search disabled: store needs embedder ".to_owned().concat(
                        name.as_str(),
                    ).concat(" (").concat(dim.as_str()).concat(
                        "-d), which could not be attached: ",
                    ).concat(e.as_str());
                    Attachment::Rereading(identity, SearchState::Disabled(note))
                },
            },
            (Attachment::VerifyingNamed(identity, name), Reply::Done(verified)) => match verified {
                Ok(_) => {
                    let note = note_verified(name.as_str(), identity.dim);
                    Attachment::Rereading(identity, SearchState::Ready(note))
                },
                Err(e) => {
                    let note = "search disabled: ".to_owned().concat(name.as_str()).concat(
                        " attached but its digest differs from the store's: ",
                    ).concat(e.as_str());
                    Attachment::Rereading(identity, SearchState::Disabled(note))
                },
            },
            (Attachment::Rereading(identity, outcome), Reply::Identity(recorded, shown)) => {
                if keeps(&identity, &recorded) {
                    Attachment::Settled(outcome)
                } else {
                    let dim = decimal_of(identity.dim as u64);
                    let note =
                        "search disabled: the recorded embedder identity changed while attaching (was ".to_owned().concat(
                        identity.digest.as_str(),
                    ).concat("/").concat(dim.as_str()).concat("-d, now ").concat(
                        shown.as_str(),
                    ).concat(")");
                    Attachment::Settled(SearchState::Disabled(note))
                }
            },
            (stage, _) => stage,
        }
    }
}

fn note_verified(label: &str, dim: usize) -> (r: String)
    ensures
        r@ == verified_note(label@, dim),
{
    let dim = decimal_of(dim as u64);
    "embedder ".to_owned().concat(label).concat(" · ").concat(dim.as_str()).concat(
        "-d · verified",
    )
}

fn keeps(identity: &Identity, recorded: &Result<Option<Identity>, String>) -> (r: bool)
    ensures
        r == identity.kept_by(*recorded),
{
    match recorded {
        Ok(Some(now)) => same_text(now.digest.as_str(), identity.digest.as_str()) && now.dim
            == identity.dim,
        _ => false,
    }
}

fn after_first_verification(identity: Identity, verified: Result<(), String>) -> (next: Attachment)
    ensures
        Attachment::Verifying(identity).leads_to(Reply::Done(verified), next),
{
    if verified.is_ok() {
        let note = match &identity.name {
            Some(name) => note_verified(name.as_str(), identity.dim),
            None => note_verified("bundled", identity.dim),
        };
        return Attachment::Rereading(identity, SearchState::Ready(note));
    }
    let named = match &identity.name {
        Some(name) => Some(name.clone()),
        None => None,
    };
    match named {
        Some(name) => Attachment::Attaching(identity, name),
        None => {
            let dim = decimal_of(identity.dim as u64);
            let note = "search disabled: the store's embedder is unnamed (".to_owned().concat(
                identity.digest.as_str(),
            ).concat(", ").concat(dim.as_str()).concat("-d) and is not the one attached");
            Attachment::Rereading(identity, SearchState::Disabled(note))
        },
    }
}

// Laws ------------------------------------------------------------------

/// Search becomes possible only in two ways: the store has no recorded
/// embedder, or the digest and dimension of the record read the same after a
/// verification as before.
pub proof fn law_ready_needs_a_kept_record(stage: Attachment, reply: Reply, next: Attachment)
    requires
        stage.awaits(reply),
        stage.leads_to(reply, next),
        next matches Attachment::Settled(state) && state is Ready,
    ensures
        match (stage, reply) {
            (Attachment::Reading, Reply::Identity(recorded, _)) => recorded == Ok::<
                Option<Identity>,
                String,
            >(None),
            (Attachment::Rereading(identity, outcome), Reply::Identity(recorded, _)) => outcome
                is Ready && identity.kept_by(recorded),
            _ => false,
        },
{
}

/// A recorded embedder counts as the attached one only where a verification
/// of the attached one, or of the one attached by the recorded name,
/// succeeded.
pub proof fn law_ready_needs_a_verification(stage: Attachment, reply: Reply, next: Attachment)
    requires
        stage.awaits(reply),
        stage.leads_to(reply, next),
        next matches Attachment::Rereading(_, state) && state is Ready,
    ensures
        reply matches Reply::Done(Ok(_)),
        stage is Verifying || stage is VerifyingNamed,
{
}

/// The stages still ahead.
pub open spec fn stages_left(stage: Attachment) -> nat {
    match stage {
        Attachment::Reading => 5,
        Attachment::Verifying(_) => 4,
        Attachment::Attaching(_, _) => 3,
        Attachment::VerifyingNamed(_, _) => 2,
        Attachment::Rereading(_, _) => 1,
        Attachment::Settled(_) => 0,
    }
}

/// The attachment ends: every reply brings it nearer to being settled.
pub proof fn law_attachment_ends(stage: Attachment, reply: Reply, next: Attachment)
    requires
        stage.awaits(reply),
        stage.leads_to(reply, next),
    ensures
        stages_left(next) < stages_left(stage),
{
}

/// A verification that succeeds makes search ready, by the name recorded or as
/// the bundled model; it counts once digest and dimension read the same again.
pub proof fn law_verified_models_are_ready(
    identity: Identity,
    verified: Attachment,
    shown: String,
    now: Identity,
    settled: Attachment,
)
    requires
        Attachment::Verifying(identity).leads_to(Reply::Done(Ok(())), verified),
        verified.leads_to(Reply::Identity(Ok(Some(now)), shown), settled),
        now.digest@ == identity.digest@,
        now.dim == identity.dim,
    ensures
        settled matches Attachment::Settled(state) && state is Ready && {
            &&& state.note().len() >= 9
            &&& state.note().skip("embedder "@.len() as int).take(label(identity.name).len() as int)
                == label(identity.name)
            &&& identity.name matches Some(name) ==> label(identity.name) == name@
        },
{
    let note = verified_note(label(identity.name), identity.dim);
    reveal_strlit("embedder ");
    assert(note.skip("embedder "@.len() as int).take(label(identity.name).len() as int) =~= label(
        identity.name,
    ));
}

/// A record whose digest or dimension reads differently, or that is gone or
/// unreadable, disables search, whatever was verified before.
pub proof fn law_changed_records_disable(
    identity: Identity,
    outcome: SearchState,
    recorded: Result<Option<Identity>, String>,
    shown: String,
    next: Attachment,
)
    requires
        Attachment::Rereading(identity, outcome).leads_to(Reply::Identity(recorded, shown), next),
    ensures
        match recorded {
            Ok(Some(now)) => if now.digest@ == identity.digest@ && now.dim == identity.dim {
                next == Attachment::Settled(outcome)
            } else {
                next matches Attachment::Settled(state) && state is Disabled
            },
            _ => next matches Attachment::Settled(state) && state is Disabled,
        },
{
}

/// A model that is not the recorded one is replaced by the one that the record
/// names, once; a record without a name, a name that cannot be attached, and a
/// named model that is not the recorded one leave search disabled.
pub proof fn law_the_recorded_model_is_attached(
    identity: Identity,
    name: String,
    why: String,
    next: Attachment,
)
    ensures
        Attachment::Verifying(identity).leads_to(Reply::Done(Err(why)), next) ==> match identity.name {
            Some(recorded) => next == Attachment::Attaching(identity, recorded),
            None => next matches Attachment::Rereading(id, state) && id == identity && state
                is Disabled,
        },
        Attachment::Attaching(identity, name).leads_to(Reply::Done(Ok(())), next) ==> next
            == Attachment::VerifyingNamed(identity, name),
        Attachment::Attaching(identity, name).leads_to(Reply::Done(Err(why)), next) ==> (
        next matches Attachment::Rereading(id, state) && id == identity && state is Disabled),
        Attachment::VerifyingNamed(identity, name).leads_to(Reply::Done(Ok(())), next) ==> (
        next matches Attachment::Rereading(id, state) && id == identity && state is Ready),
        Attachment::VerifyingNamed(identity, name).leads_to(Reply::Done(Err(why)), next) ==> (
        next matches Attachment::Rereading(id, state) && id == identity && state is Disabled),
{
}

/// A store without a record is searched with what is attached; one whose record
/// cannot be read is not searched; otherwise the record is verified.
pub proof fn law_the_record_is_read_first(
    recorded: Result<Option<Identity>, String>,
    shown: String,
    next: Attachment,
)
    requires
        Attachment::Reading.leads_to(Reply::Identity(recorded, shown), next),
    ensures
        match recorded {
            Err(_) => next matches Attachment::Settled(state) && state is Disabled,
            Ok(None) => next matches Attachment::Settled(state) && state is Ready,
            Ok(Some(identity)) => next == Attachment::Verifying(identity),
        },
{
}

/// Whether `part` stands somewhere in `text`.
pub open spec fn mentions(text: Seq<char>, part: Seq<char>) -> bool {
    exists|i: int|
        0 <= i && i + part.len() <= text.len() && #[trigger] text.subrange(i, i + part.len())
            == part
}

proof fn lemma_mentions(front: Seq<char>, part: Seq<char>, back: Seq<char>)
    ensures
        mentions(front + part + back, part),
{
    let text = front + part + back;
    let i = front.len() as int;
    assert(text.subrange(i, i + part.len()) =~= part);
}

/// The notes say what they are about: the model, the dimension, the digest and
/// the reason, and each one for a disabled search says that it is disabled.
pub proof fn law_notes_say_what_they_are_about(
    stage: Attachment,
    reply: Reply,
    next: Attachment,
)
    requires
        stage.awaits(reply),
        stage.leads_to(reply, next),
    ensures
        (next matches Attachment::Rereading(_, state) && state is Disabled) ==> "search disabled: "@.is_prefix_of(
            (next->Rereading_1).note(),
        ),
        (next matches Attachment::Settled(state) && state is Disabled && !(
        stage matches Attachment::Rereading(_, outcome) && outcome == state))
            ==> "search disabled: "@.is_prefix_of((next->Settled_0).note()),
        match (stage, reply) {
            (Attachment::Reading, Reply::Identity(Err(e), _)) => e@.is_suffix_of(
                (next->Settled_0).note(),
            ),
            (Attachment::Verifying(identity), Reply::Done(Ok(_))) => mentions(
                (next->Rereading_1).note(),
                decimal(identity.dim as nat),
            ) && (identity.name matches Some(n) ==> mentions((next->Rereading_1).note(), n@)),
            (Attachment::Verifying(identity), Reply::Done(Err(_))) => identity.name is None ==> {
                &&& mentions((next->Rereading_1).note(), identity.digest@)
                &&& mentions((next->Rereading_1).note(), decimal(identity.dim as nat))
            },
            (Attachment::Attaching(identity, name), Reply::Done(Err(e))) => {
                &&& mentions((next->Rereading_1).note(), name@)
                &&& mentions((next->Rereading_1).note(), decimal(identity.dim as nat))
                &&& e@.is_suffix_of((next->Rereading_1).note())
            },
            (Attachment::VerifyingNamed(identity, name), Reply::Done(Ok(_))) => {
                &&& mentions((next->Rereading_1).note(), name@)
                &&& mentions((next->Rereading_1).note(), decimal(identity.dim as nat))
            },
            (Attachment::VerifyingNamed(identity, name), Reply::Done(Err(e))) => {
                &&& mentions((next->Rereading_1).note(), name@)
                &&& e@.is_suffix_of((next->Rereading_1).note())
            },
            (Attachment::Rereading(identity, _), Reply::Identity(recorded, shown)) => !(
            recorded matches Ok(Some(now)) && now.digest@ == identity.digest@ && now.dim
                == identity.dim) ==> {
                &&& mentions((next->Settled_0).note(), identity.digest@)
                &&& mentions((next->Settled_0).note(), decimal(identity.dim as nat))
                &&& mentions((next->Settled_0).note(), shown@)
            },
            _ => true,
        },
{
    reveal_strlit("search disabled: ");
    reveal_strlit("search disabled: embedder identity unreadable: ");
    reveal_strlit("search disabled: store needs embedder ");
    reveal_strlit("search disabled: the store's embedder is unnamed (");
    reveal_strlit("search disabled: the recorded embedder identity changed while attaching (was ");
    match (stage, reply) {
        (Attachment::Reading, Reply::Identity(Err(e), _)) => {
            let t = "search disabled: embedder identity unreadable: "@;
            assert(t + e@ == (next->Settled_0).note());
            assert((t + e@).skip(t.len() as int) =~= e@);
        },
        (Attachment::Verifying(identity), Reply::Done(Ok(_))) => {
            let (l, d) = (label(identity.name), decimal(identity.dim as nat));
            lemma_mentions("embedder "@ + l + " · "@, d, "-d · verified"@);
            lemma_mentions("embedder "@, l, " · "@ + d + "-d · verified"@);
            assert("embedder "@ + l + (" · "@ + d + "-d · verified"@) =~= verified_note(
                l,
                identity.dim,
            ));
        },
        (Attachment::Verifying(identity), Reply::Done(Err(_))) => {
            if identity.name is None {
                let (g, d) = (identity.digest@, decimal(identity.dim as nat));
                let t = "search disabled: the store's embedder is unnamed ("@;
                let end = "-d) and is not the one attached"@;
                lemma_mentions(t + g + ", "@, d, end);
                lemma_mentions(t, g, ", "@ + d + end);
                assert(t + g + (", "@ + d + end) =~= unnamed_note(g, identity.dim));
            }
        },
        (Attachment::Attaching(identity, name), Reply::Done(Err(e))) => {
            let d = decimal(identity.dim as nat);
            let t = "search disabled: store needs embedder "@;
            let end = "-d), which could not be attached: "@;
            lemma_mentions(t + name@ + " ("@, d, end + e@);
            lemma_mentions(t, name@, " ("@ + d + end + e@);
            let note = unattached_note(name@, identity.dim, e@);
            assert(t + name@ + " ("@ + d + (end + e@) =~= note);
            assert(t + name@ + (" ("@ + d + end + e@) =~= note);
            assert(note.skip(note.len() - e@.len()) =~= e@);
        },
        (Attachment::VerifyingNamed(identity, name), Reply::Done(Ok(_))) => {
            let (l, d) = (name@, decimal(identity.dim as nat));
            lemma_mentions("embedder "@ + l + " · "@, d, "-d · verified"@);
            lemma_mentions("embedder "@, l, " · "@ + d + "-d · verified"@);
            assert("embedder "@ + l + (" · "@ + d + "-d · verified"@) =~= verified_note(
                l,
                identity.dim,
            ));
        },
        (Attachment::VerifyingNamed(identity, name), Reply::Done(Err(e))) => {
            let t = " attached but its digest differs from the store's: "@;
            lemma_mentions("search disabled: "@, name@, t + e@);
            let note = differing_note(name@, e@);
            assert("search disabled: "@ + name@ + (t + e@) =~= note);
            assert(note.skip(note.len() - e@.len()) =~= e@);
        },
        (Attachment::Rereading(identity, _), Reply::Identity(recorded, shown)) => {
            if !identity.kept_by(recorded) {
                let (g, d) = (identity.digest@, decimal(identity.dim as nat));
                let t =
                    "search disabled: the recorded embedder identity changed while attaching (was "@;
                let note = changed_note(g, identity.dim, shown@);
                lemma_mentions(t, g, "/"@ + d + "-d, now "@ + shown@ + ")"@);
                lemma_mentions(t + g + "/"@, d, "-d, now "@ + shown@ + ")"@);
                lemma_mentions(t + g + "/"@ + d + "-d, now "@, shown@, ")"@);
                assert(t + g + ("/"@ + d + "-d, now "@ + shown@ + ")"@) =~= note);
                assert(t + g + "/"@ + d + ("-d, now "@ + shown@ + ")"@) =~= note);
            }
        },
        _ => {},
    }
}

/// Reading the record is answered by an identity, everything else by whether it
/// was done, and a settled attachment by nothing.
pub proof fn law_what_is_awaited(stage: Attachment, reply: Reply)
    ensures
        stage.awaits(reply) <==> match stage {
            Attachment::Reading => reply is Identity,
            Attachment::Rereading(_, _) => reply is Identity,
            Attachment::Verifying(_) => reply is Done,
            Attachment::Attaching(_, _) => reply is Done,
            Attachment::VerifyingNamed(_, _) => reply is Done,
            Attachment::Settled(_) => false,
        },
{
}

} // verus!
