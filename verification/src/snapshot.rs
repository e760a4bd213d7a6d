//! The private directory that owns one snapshot copy of a store: its name,
//! how it is created, and how it is removed.
//!
//! The steps that touch the file system are made elsewhere; here is decided
//! what follows from their outcomes.

use vstd::arithmetic::power2::{lemma2_to64, lemma_pow2_adds, pow2};
use vstd::prelude::*;

use crate::text::{
    decimal, decimal_value, digit, hex, hex_digit, hex_value, law_decimal_reads_back,
    law_hex_reads_back, push_decimal, push_hex,
};

verus! {

/// How often a fresh name is tried.
pub const CREATE_ATTEMPTS: u32 = 16;

/// How often the removal of a directory is tried.
pub const REMOVE_ATTEMPTS: u32 = 40;

/// The milliseconds between two tries at a removal.
pub const REMOVE_PAUSE: u64 = 50;

/// A directory that owns one snapshot copy, by the names that lead to it from
/// the directory for temporary files.
pub struct SnapshotGuard {
    pub dir: Vec<String>,
}

/// The names of a path.
pub open spec fn names_of(path: Seq<String>) -> Seq<Seq<char>> {
    path.map_values(|name: String| name@)
}

/// The name of the directory of the process `pid` that drew the number
/// `nonce`.
pub open spec fn dir_name(pid: u32, nonce: u64) -> Seq<char> {
    decimal(pid as nat) + "-"@ + hex(nonce as nat, 16)
}

/// The path of that directory.
pub open spec fn dir_path(pid: u32, nonce: u64) -> Seq<Seq<char>> {
    seq!["yantrikdb-tui"@, dir_name(pid, nonce)]
}

/// Draws a number with `rand::random`. Nothing is claimed of it: any number
/// can come.
#[verifier::external_body]
fn random_nonce() -> (nonce: u64) {
    rand::random::<u64>()
}

/// The directory under which every snapshot directory lies.
pub fn root() -> (r: Vec<String>)
    ensures
        names_of(r@) == seq!["yantrikdb-tui"@],
{
    let mut path: Vec<String> = Vec::new();
    path.push("yantrikdb-tui".to_owned());
    assert(names_of(path@) =~= seq!["yantrikdb-tui"@]);
    path
}

impl SnapshotGuard {
    /// The directory of the process `pid` that drew the number `nonce`.
    pub fn candidate(pid: u32, nonce: u64) -> (guard: SnapshotGuard)
        ensures
            names_of(guard.dir@) == dir_path(pid, nonce),
    {
        let mut name = String::new();
        push_decimal(&mut name, pid as u64);
        name.append("-");
        push_hex(&mut name, nonce, 16);
        assert(name@ =~= dir_name(pid, nonce));
        let mut dir = root();
        let ghost above = dir@;
        dir.push(name);
        assert(names_of(above).len() == 1 && names_of(above)[0] == "yantrikdb-tui"@);
        assert(names_of(dir@) =~= dir_path(pid, nonce));
        SnapshotGuard { dir }
    }

    /// A directory of the process `pid` under a random name.
    pub fn draw(pid: u32) -> (guard: SnapshotGuard)
        ensures
            exists|nonce: u64| names_of(guard.dir@) == #[trigger] dir_path(pid, nonce),
    {
        SnapshotGuard::candidate(pid, random_nonce())
    }

    /// The file in which the copy lies.
    pub fn db_path(&self) -> (path: Vec<String>)
        ensures
            names_of(path@) == names_of(self.dir@).push("snapshot.db"@),
    {
        let mut path: Vec<String> = Vec::new();
        let mut i: usize = 0;
        while i < self.dir.len()
            invariant
                i <= self.dir.len(),
                path@ == self.dir@.take(i as int),
            decreases self.dir.len() - i,
        {
            path.push(self.dir[i].clone());
            i += 1;
            assert(self.dir@.take(i - 1).push(self.dir@[i - 1]) =~= self.dir@.take(i as int));
        }
        path.push("snapshot.db".to_owned());
        assert(names_of(path@) =~= names_of(self.dir@).push("snapshot.db"@));
        path
    }
}

/// What became of the creation of a directory that must not exist yet.
pub enum MakeDir {
    Done,
    AlreadyExists,
    Failed(String),
}

/// What follows from it.
pub enum CreateNext {
    /// The directory is ours.
    Keep,
    /// The name is taken: another one is to be drawn.
    TryAnother,
    /// There is no directory, for this reason.
    Fail(String),
}

impl CreateNext {
    /// What follows from the outcome of try number `attempt`, counted from
    /// nothing.
    pub open spec fn follows(self, attempt: u32, outcome: MakeDir) -> bool {
        match outcome {
            MakeDir::Done => self is Keep,
            MakeDir::AlreadyExists => if attempt + 1 < CREATE_ATTEMPTS {
                self is TryAnother
            } else {
                self matches CreateNext::Fail(why) && why@
                    == "could not create a private snapshot directory"@
            },
            MakeDir::Failed(e) => self matches CreateNext::Fail(why) && why == e,
        }
    }
}

/// Decides what follows from the outcome of try number `attempt`. A name that
/// exists is never used again.
pub fn after_make_dir(attempt: u32, outcome: MakeDir) -> (next: CreateNext)
    ensures
        next.follows(attempt, outcome),
{
    match outcome {
        MakeDir::Done => CreateNext::Keep,
        MakeDir::AlreadyExists => if attempt < CREATE_ATTEMPTS - 1 {
            CreateNext::TryAnother
        } else {
            CreateNext::Fail("could not create a private snapshot directory".to_owned())
        },
        MakeDir::Failed(e) => CreateNext::Fail(e),
    }
}

/// What became of the removal of a directory.
#[derive(Clone, Copy, Debug, PartialEq, Eq, Structural)]
pub enum RemoveDir {
    Done,
    NotFound,
    Failed,
}

/// What follows from it.
#[derive(Clone, Copy, Debug, PartialEq, Eq, Structural)]
pub enum RemoveNext {
    /// The directory is gone.
    Gone,
    /// Another try is to be made after this many milliseconds.
    RetryAfter(u64),
    /// The directory stays.
    GiveUp,
}

/// What follows from the outcome of try number `attempt`, counted from
/// nothing.
pub open spec fn removal_next(attempt: u32, outcome: RemoveDir) -> RemoveNext {
    if outcome != RemoveDir::Failed {
        RemoveNext::Gone
    } else if attempt + 1 < REMOVE_ATTEMPTS {
        RemoveNext::RetryAfter(REMOVE_PAUSE)
    } else {
        RemoveNext::GiveUp
    }
}

/// Decides what follows from the outcome of try number `attempt`.
pub fn after_remove_dir(attempt: u32, outcome: RemoveDir) -> (next: RemoveNext)
    ensures
        next == removal_next(attempt, outcome),
{
    match outcome {
        RemoveDir::Done | RemoveDir::NotFound => RemoveNext::Gone,
        RemoveDir::Failed => if attempt < REMOVE_ATTEMPTS - 1 {
            RemoveNext::RetryAfter(REMOVE_PAUSE)
        } else {
            RemoveNext::GiveUp
        },
    }
}

/// How far a backup came in one step.
#[derive(Clone, Copy, Debug, PartialEq, Eq, Structural)]
pub enum BackupStep {
    Done,
    More,
    Busy,
    Locked,
}

impl BackupStep {
    pub open spec fn name(self) -> Seq<char> {
        match self {
            BackupStep::Done => "Done"@,
            BackupStep::More => "More"@,
            BackupStep::Busy => "Busy"@,
            BackupStep::Locked => "Locked"@,
        }
    }
}

/// Whether the single step made the whole copy. A copy made in more than one
/// step would not be one moment in time.
pub fn after_backup_step(step: BackupStep) -> (r: Result<(), String>)
    ensures
        r is Ok <==> step == BackupStep::Done,
        r matches Err(e) ==> e@ == "snapshot did not complete in one step: "@ + step.name(),
{
    let name = match step {
        BackupStep::Done => {
            return Ok(());
        },
        BackupStep::More => "More",
        BackupStep::Busy => "Busy",
        BackupStep::Locked => "Locked",
    };
    let mut why = "snapshot did not complete in one step: ".to_owned();
    why.append(name);
    Err(why)
}

// Laws ------------------------------------------------------------------

proof fn lemma_hex_digit_injective(a: int, b: int)
    requires
        0 <= a < 16,
        0 <= b < 16,
        hex_digit(a) == hex_digit(b),
    ensures
        a == b,
{
}

proof fn lemma_hex_len(n: nat, width: nat)
    ensures
        hex(n, width).len() == width,
    decreases width,
{
    if width > 0 {
        lemma_hex_len(n / 16, (width - 1) as nat);
    }
}

proof fn lemma_hex_injective(a: nat, b: nat, width: nat)
    requires
        hex(a, width) == hex(b, width),
        a < pow2(4 * width),
        b < pow2(4 * width),
    ensures
        a == b,
    decreases width,
{
    lemma2_to64();
    if width > 0 {
        let (x, y) = (hex(a, width), hex(b, width));
        let (fa, fb) = (hex(a / 16, (width - 1) as nat), hex(b / 16, (width - 1) as nat));
        lemma_hex_len(a, width);
        assert(x.drop_last() =~= fa);
        assert(y.drop_last() =~= fb);
        assert(x.last() == hex_digit((a % 16) as int));
        assert(y.last() == hex_digit((b % 16) as int));
        lemma_hex_digit_injective((a % 16) as int, (b % 16) as int);
        lemma_pow2_adds(4, (4 * width - 4) as nat);
        lemma_hex_injective(a / 16, b / 16, (width - 1) as nat);
    }
}

proof fn lemma_decimal_injective(a: nat, b: nat)
    requires
        decimal(a) == decimal(b),
    ensures
        a == b,
    decreases a,
{
    let (x, y) = (decimal(a), decimal(b));
    lemma_decimal_len(a);
    lemma_decimal_len(b);
    assert(x.last() == digit((a % 10) as int));
    assert(y.last() == digit((b % 10) as int));
    if a >= 10 {
        assert(x.drop_last() =~= decimal(a / 10));
        assert(y.drop_last() =~= decimal(b / 10));
        lemma_decimal_injective(a / 10, b / 10);
    }
}

proof fn lemma_decimal_len(a: nat)
    ensures
        decimal(a).len() >= 1,
        decimal(a).len() == 1 <==> a < 10,
    decreases a,
{
    if a >= 10 {
        lemma_decimal_len(a / 10);
    }
}

/// Two snapshot directories have the same path only where the same process
/// drew the same number twice.
pub proof fn law_directory_names_are_distinct(pid: u32, nonce: u64, pid2: u32, nonce2: u64)
    requires
        dir_path(pid, nonce) == dir_path(pid2, nonce2),
    ensures
        pid == pid2,
        nonce == nonce2,
{
    let (a, b) = (dir_name(pid, nonce), dir_name(pid2, nonce2));
    assert(dir_path(pid, nonce)[1] == a);
    assert(dir_path(pid2, nonce2)[1] == b);
    let (ha, hb) = (hex(nonce as nat, 16), hex(nonce2 as nat, 16));
    lemma_hex_len(nonce as nat, 16);
    lemma_hex_len(nonce2 as nat, 16);
    reveal_strlit("-");
    let n = a.len();
    assert(a.subrange(n - 16, n as int) =~= ha);
    assert(b.subrange(n - 16, n as int) =~= hb);
    lemma2_to64();
    lemma_hex_injective(nonce as nat, nonce2 as nat, 16);
    assert(a.take(n - 17) =~= decimal(pid as nat));
    assert(b.take(n - 17) =~= decimal(pid2 as nat));
    lemma_decimal_injective(pid as nat, pid2 as nat);
}

/// The milliseconds that a removal waits in all when its tries, from number
/// `attempt` on, end as `outcomes` says.
pub open spec fn removal_wait(attempt: nat, outcomes: Seq<RemoveDir>) -> nat
    decreases outcomes.len(),
{
    if outcomes.len() == 0 || attempt >= REMOVE_ATTEMPTS {
        0
    } else {
        match removal_next(attempt as u32, outcomes[0]) {
            RemoveNext::RetryAfter(pause) => pause as nat + removal_wait(
                attempt + 1,
                outcomes.skip(1),
            ),
            _ => 0,
        }
    }
}

/// A removal ends: however its tries go, it waits less than two seconds.
pub proof fn law_removal_is_bounded(attempt: nat, outcomes: Seq<RemoveDir>)
    requires
        attempt <= REMOVE_ATTEMPTS,
    ensures
        removal_wait(attempt, outcomes) < 2_000,
        attempt < REMOVE_ATTEMPTS ==> removal_wait(attempt, outcomes) <= REMOVE_PAUSE * (
        REMOVE_ATTEMPTS - 1 - attempt),
    decreases outcomes.len(),
{
    if outcomes.len() > 0 && attempt < REMOVE_ATTEMPTS {
        law_removal_is_bounded(attempt + 1, outcomes.skip(1));
    }
}

/// The name of a directory tells its process and the number it drew, apart by
/// a hyphen; it lies right under the root of all of them.
pub proof fn law_directory_names_read_back(pid: u32, nonce: u64)
    ensures
        ({
            let name = dir_path(pid, nonce).last();
            &&& dir_path(pid, nonce).len() == 2
            &&& dir_path(pid, nonce)[0] == "yantrikdb-tui"@
            &&& name.len() > 17
            &&& decimal_value(name.take(name.len() - 17)) == pid
            &&& name[name.len() - 17] == '-'
            &&& hex_value(name.skip(name.len() - 16)) == nonce
        }),
{
    let name = dir_name(pid, nonce);
    law_decimal_reads_back(pid as nat);
    law_hex_reads_back(nonce as nat, 16);
    reveal_strlit("-");
    assert(name.take(name.len() - 17) =~= decimal(pid as nat));
    assert(name.skip(name.len() - 16) =~= hex(nonce as nat, 16));
    reveal_with_fuel(vstd::arithmetic::power::pow, 17);
}

/// A directory that was there before is never kept, one that was made always
/// is, and an error ends the tries with that error. A taken name is followed by
/// another one, but for the last of sixteen tries.
pub proof fn law_a_directory_is_kept_only_where_it_was_made(
    attempt: u32,
    outcome: MakeDir,
    next: CreateNext,
)
    requires
        next.follows(attempt, outcome),
    ensures
        next is Keep <==> outcome is Done,
        next is TryAnother <==> outcome is AlreadyExists && attempt < 15,
        outcome matches MakeDir::Failed(e) ==> next == CreateNext::Fail(e),
        outcome is AlreadyExists && attempt >= 15 ==> next is Fail,
{
}

/// A removal goes on only while it fails and there are tries left, and it is
/// given up only where the last of forty tries failed.
pub proof fn law_a_removal_goes_on_while_it_fails(attempt: u32, outcome: RemoveDir)
    ensures
        ({
            let next = removal_next(attempt, outcome);
            &&& next == RemoveNext::Gone <==> outcome == RemoveDir::Done || outcome
                == RemoveDir::NotFound
            &&& next is RetryAfter <==> outcome == RemoveDir::Failed && attempt < 39
            &&& next == RemoveNext::GiveUp <==> outcome == RemoveDir::Failed && attempt >= 39
            &&& next matches RemoveNext::RetryAfter(pause) ==> pause == 50
        }),
{
}

} // verus!
