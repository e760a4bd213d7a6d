//! Inspection reads for one memory: the claims it backs, its revision
//! history, and the entities the store linked it to.
//!
//! They are read-only: a [`YantrikDB`] is only looked at.

use vstd::prelude::*;

use crate::double::Double;
use crate::json::{json_value, parse_or_null, value_or_null};
use crate::order::{
    arranged, in_order, insert_in_order, law_arranged, lemma_arranged_contains, lemma_arranged_push,
    lemma_text_total, lemma_text_transitive, place, text_at_most, text_le, Ordered,
};
use crate::text::same_text;

verus! {

/// One row of the store's table of claims.
pub struct ClaimRow {
    pub claim_id: String,
    pub src: String,
    pub dst: String,
    pub rel_type: String,
    pub weight: Double,
    /// Unix seconds.
    pub created_at: Double,
    /// -1 for a denied claim.
    pub polarity: i32,
    pub modality: String,
    pub valid_from: Option<Double>,
    pub valid_to: Option<Double>,
    pub extractor: String,
    pub confidence_band: String,
    /// The memory that backs the claim.
    pub source_memory_rid: Option<String>,
    pub namespace: String,
    pub grounding: i64,
    pub tombstoned: bool,
}

/// One row of the store's table of conflicts. Each side names a claim or a
/// memory.
pub struct ConflictRow {
    pub memory_a: Option<String>,
    pub memory_b: Option<String>,
    pub status: String,
}

/// One row of the store's archive of corrections. The prior text and metadata
/// are archived as stored; here each is what reading it back gave, the
/// plain text or why it could not be decrypted.
pub struct RevisionRow {
    pub revision_id: String,
    pub rid: String,
    pub revision_num: i64,
    pub prior_text: Result<String, String>,
    pub prior_metadata: Result<String, String>,
    pub prior_importance: Double,
    pub prior_valence: Double,
    pub reason: String,
    pub applied_at: Double,
    pub origin_actor: String,
}

/// One link between a memory and an entity.
pub struct EntityLink {
    pub memory_rid: String,
    pub entity_name: String,
}

/// The tables of a store that inspection reads.
pub struct YantrikDB {
    pub claims: Vec<ClaimRow>,
    pub conflicts: Vec<ConflictRow>,
    pub record_revisions: Vec<RevisionRow>,
    pub entity_links: Vec<EntityLink>,
}

/// What a reader should make of a claim.
#[derive(Clone, Copy, Debug, PartialEq, Eq, Structural)]
pub enum Status {
    /// The claim denies the relation.
    Negative,
    /// The validity of the claim has ended.
    Historical,
    /// The claim has an end of validity that is not past.
    Superseded,
    /// The claim, or the memory behind it, is in an open conflict.
    Conflicted,
    Active,
}

/// One claim as an explorer shows it.
pub struct Claim {
    pub claim_id: String,
    pub src: String,
    pub dst: String,
    pub rel_type: String,
    pub weight: Double,
    pub created_at: Double,
    pub polarity: i32,
    pub modality: String,
    pub valid_from: Option<Double>,
    pub valid_to: Option<Double>,
    pub extractor: String,
    pub confidence_band: String,
    pub source_memory_rid: Option<String>,
    pub namespace: String,
    pub grounding: i64,
    pub status_suggestion: Status,
}

/// One archived state of a memory before a correction.
pub struct RevisionEntry {
    pub revision_id: String,
    pub rid: String,
    /// 1 for the first correction of a memory, then 2, 3, and so on.
    pub revision_num: i64,
    /// The text before this correction was applied.
    pub prior_text: String,
    /// The metadata before this correction; null only where the archived JSON
    /// does not parse or is null.
    pub prior_metadata: serde_json::Value,
    pub prior_importance: Double,
    pub prior_valence: Double,
    /// The reason given for the correction.
    pub reason: String,
    /// Unix seconds; when the correction was applied to the store.
    pub applied_at: Double,
    pub origin_actor: String,
}

// Claims ----------------------------------------------------------------

impl Status {
    /// The word that stands for the status.
    pub open spec fn word(self) -> Seq<char> {
        match self {
            Status::Negative => "negative"@,
            Status::Historical => "historical"@,
            Status::Superseded => "superseded"@,
            Status::Conflicted => "conflicted"@,
            Status::Active => "active"@,
        }
    }

    /// The word that stands for the status.
    pub fn as_str(&self) -> (r: &'static str)
        ensures
            r@ == self.word(),
    {
        match self {
            Status::Negative => "negative",
            Status::Historical => "historical",
            Status::Superseded => "superseded",
            Status::Conflicted => "conflicted",
            Status::Active => "active",
        }
    }
}

impl ConflictRow {
    /// Whether `id` is one of the sides of this open conflict.
    pub open spec fn disputes(self, id: Seq<char>) -> bool {
        &&& self.status@ == "open"@
        &&& {
            ||| self.memory_a matches Some(a) && a@ == id
            ||| self.memory_b matches Some(b) && b@ == id
        }
    }
}

/// Whether an open conflict has `id` as one of its sides.
pub open spec fn disputed(conflicts: Seq<ConflictRow>, id: Seq<char>) -> bool {
    exists|i: int| 0 <= i < conflicts.len() && (#[trigger] conflicts[i]).disputes(id)
}

/// The status of a claim at the time `now`.
pub open spec fn status_of(row: ClaimRow, conflicts: Seq<ConflictRow>, now: Double) -> Status {
    if row.polarity == -1 {
        Status::Negative
    } else if let Some(end) = row.valid_to {
        if end.is_less(now) {
            Status::Historical
        } else {
            Status::Superseded
        }
    } else if disputed(conflicts, row.claim_id@) || (row.source_memory_rid matches Some(rid)
        && disputed(conflicts, rid@)) {
        Status::Conflicted
    } else {
        Status::Active
    }
}

/// The claim that a row stands for at the time `now`.
pub open spec fn claim_of(row: ClaimRow, conflicts: Seq<ConflictRow>, now: Double) -> Claim {
    Claim {
        claim_id: row.claim_id,
        src: row.src,
        dst: row.dst,
        rel_type: row.rel_type,
        weight: row.weight,
        created_at: row.created_at,
        polarity: row.polarity,
        modality: row.modality,
        valid_from: row.valid_from,
        valid_to: row.valid_to,
        extractor: row.extractor,
        confidence_band: row.confidence_band,
        source_memory_rid: row.source_memory_rid,
        namespace: row.namespace,
        grounding: row.grounding,
        status_suggestion: status_of(row, conflicts, now),
    }
}

impl ClaimRow {
    /// Whether this is a claim that the memory `rid` backs and that was not
    /// taken back.
    pub open spec fn backed_by(self, rid: Seq<char>) -> bool {
        &&& self.source_memory_rid matches Some(source)
        &&& source@ == rid
        &&& !self.tombstoned
    }
}

/// Claims stand newest first, those of one time by their ids.
impl Ordered for Claim {
    open spec fn at_most(self, other: Self) -> bool {
        ||| self.created_at.value() > other.created_at.value()
        ||| (self.created_at.value() == other.created_at.value() && text_at_most(
            self.claim_id@,
            other.claim_id@,
        ))
    }

    proof fn lemma_total(a: Self, b: Self) {
        lemma_text_total(a.claim_id@, b.claim_id@);
    }

    proof fn lemma_transitive(a: Self, b: Self, c: Self) {
        if a.created_at.value() == c.created_at.value() {
            lemma_text_transitive(a.claim_id@, b.claim_id@, c.claim_id@);
        }
    }

    fn le(&self, other: &Self) -> (r: bool) {
        if other.created_at.precedes(&self.created_at) {
            true
        } else if self.created_at.precedes(&other.created_at) {
            false
        } else {
            text_le(self.claim_id.as_str(), other.claim_id.as_str())
        }
    }
}

/// Whether an optional text is there and reads `id`.
fn names(side: &Option<String>, id: &str) -> (r: bool)
    ensures
        r == (side matches Some(s) && s@ == id@),
{
    match side {
        Some(s) => same_text(s.as_str(), id),
        None => false,
    }
}

fn is_disputed(conflicts: &Vec<ConflictRow>, id: &str) -> (r: bool)
    ensures
        r == disputed(conflicts@, id@),
{
    let mut i: usize = 0;
    while i < conflicts.len()
        invariant
            i <= conflicts.len(),
            forall|j: int| 0 <= j < i ==> !(#[trigger] conflicts@[j]).disputes(id@),
        decreases conflicts.len() - i,
    {
        let c = &conflicts[i];
        if same_text(c.status.as_str(), "open") && (names(&c.memory_a, id) || names(
            &c.memory_b,
            id,
        )) {
            assert(conflicts@[i as int].disputes(id@));
            return true;
        }
        i += 1;
    }
    false
}

/// The status of a claim at the time `now`.
fn suggest_status(row: &ClaimRow, conflicts: &Vec<ConflictRow>, now: &Double) -> (r: Status)
    ensures
        r == status_of(*row, conflicts@, *now),
{
    if row.polarity == -1 {
        return Status::Negative;
    }
    if let Some(end) = &row.valid_to {
        return if end.less_than(now) {
            Status::Historical
        } else {
            Status::Superseded
        };
    }
    let by_source: bool = match &row.source_memory_rid {
        Some(rid) => is_disputed(conflicts, rid.as_str()),
        None => false,
    };
    if is_disputed(conflicts, row.claim_id.as_str()) || by_source {
        Status::Conflicted
    } else {
        Status::Active
    }
}

fn make_claim(row: &ClaimRow, conflicts: &Vec<ConflictRow>, now: &Double) -> (r: Claim)
    ensures
        r == claim_of(*row, conflicts@, *now),
{
    let source_memory_rid = match &row.source_memory_rid {
        Some(rid) => Some(rid.clone()),
        None => None,
    };
    Claim {
        claim_id: row.claim_id.clone(),
        src: row.src.clone(),
        dst: row.dst.clone(),
        rel_type: row.rel_type.clone(),
        weight: row.weight,
        created_at: row.created_at,
        polarity: row.polarity,
        modality: row.modality.clone(),
        valid_from: row.valid_from,
        valid_to: row.valid_to,
        extractor: row.extractor.clone(),
        confidence_band: row.confidence_band.clone(),
        source_memory_rid,
        namespace: row.namespace.clone(),
        grounding: row.grounding,
        status_suggestion: suggest_status(row, conflicts, now),
    }
}

impl YantrikDB {
    /// The claims that the memory `rid` backs at the time `now`, as the table
    /// holds them.
    pub open spec fn claims_of(self, rid: Seq<char>, now: Double) -> Seq<Claim> {
        self.claims@.filter(|row: ClaimRow| row.backed_by(rid)).map_values(
            |row: ClaimRow| claim_of(row, self.conflicts@, now),
        )
    }

    /// The claims that the memory `rid` backs and that were not taken back,
    /// newest first and those of one time by their ids, each with its status
    /// at the time `now`. None for a rid that backs nothing.
    pub fn claims_for_memory(&self, rid: &str, now: &Double) -> (r: Vec<Claim>)
        ensures
            r@ == arranged(self.claims_of(rid@, *now)),
            in_order(r@),
            r@.to_multiset() == self.claims_of(rid@, *now).to_multiset(),
            forall|i: int|
                0 <= i < r@.len() ==> exists|k: int|
                    {
                        &&& 0 <= k < self.claims@.len()
                        &&& (#[trigger] self.claims@[k]).source_memory_rid matches Some(source)
                            && source@ == rid@
                        &&& !self.claims@[k].tombstoned
                        &&& (#[trigger] r@[i]).claim_id@ == self.claims@[k].claim_id@
                        &&& r@[i].src@ == self.claims@[k].src@
                        &&& r@[i].dst@ == self.claims@[k].dst@
                        &&& r@[i].rel_type@ == self.claims@[k].rel_type@
                        &&& r@[i].weight == self.claims@[k].weight
                        &&& r@[i].created_at == self.claims@[k].created_at
                        &&& r@[i].polarity == self.claims@[k].polarity
                        &&& r@[i].modality@ == self.claims@[k].modality@
                        &&& r@[i].valid_from == self.claims@[k].valid_from
                        &&& r@[i].valid_to == self.claims@[k].valid_to
                        &&& r@[i].extractor@ == self.claims@[k].extractor@
                        &&& r@[i].confidence_band@ == self.claims@[k].confidence_band@
                        &&& r@[i].namespace@ == self.claims@[k].namespace@
                        &&& r@[i].grounding == self.claims@[k].grounding
                        &&& r@[i].source_memory_rid == self.claims@[k].source_memory_rid
                        &&& r@[i].status_suggestion == status_of(
                            self.claims@[k],
                            self.conflicts@,
                            *now,
                        )
                    },
            forall|i: int, j: int|
                0 <= i < j < r@.len() ==> {
                    ||| (#[trigger] r@[i]).created_at.value() > (
                    #[trigger] r@[j]).created_at.value()
                    ||| (r@[i].created_at.value() == r@[j].created_at.value() && text_at_most(
                        r@[i].claim_id@,
                        r@[j].claim_id@,
                    ))
                },
    {
        let ghost kept = |row: ClaimRow| row.backed_by(rid@);
        let ghost made = |row: ClaimRow| claim_of(row, self.conflicts@, *now);
        let mut out: Vec<Claim> = Vec::new();
        let mut i: usize = 0;
        while i < self.claims.len()
            invariant
                i <= self.claims.len(),
                kept == (|row: ClaimRow| row.backed_by(rid@)),
                made == (|row: ClaimRow| claim_of(row, self.conflicts@, *now)),
                out@ == arranged(self.claims@.take(i as int).filter(kept).map_values(made)),
            decreases self.claims.len() - i,
        {
            let row = &self.claims[i];
            let ghost front = self.claims@.take(i as int);
            let ghost so_far = front.filter(kept).map_values(made);
            assert(self.claims@.take(i + 1) =~= front.push(*row));
            proof {
                reveal(Seq::filter);
                assert(front.push(*row).drop_last() =~= front);
            }
            if names(&row.source_memory_rid, rid) && !row.tombstoned {
                let claim = make_claim(row, &self.conflicts, now);
                proof {
                    lemma_arranged_push(so_far, claim);
                    assert(self.claims@.take(i + 1).filter(kept).map_values(made) =~= so_far.push(
                        claim,
                    ));
                }
                insert_in_order(&mut out, claim);
            }
            i += 1;
        }
        proof {
            assert(self.claims@.take(i as int) =~= self.claims@);
            law_arranged(self.claims_of(rid@, *now));
            law_claims_keep_their_columns(*self, rid@, *now);
            assert forall|i: int, j: int| 0 <= i < j < out@.len() implies {
                ||| (#[trigger] out@[i]).created_at.value() > (#[trigger] out@[j]).created_at.value()
                ||| (out@[i].created_at.value() == out@[j].created_at.value() && text_at_most(
                    out@[i].claim_id@,
                    out@[j].claim_id@,
                ))
            } by {
                assert(out@[i].at_most(out@[j]));
            }
        }
        out
    }
}

// Revisions -------------------------------------------------------------

/// Revisions stand by their numbers, the oldest first.
impl Ordered for RevisionRow {
    open spec fn at_most(self, other: Self) -> bool {
        self.revision_num <= other.revision_num
    }

    proof fn lemma_total(a: Self, b: Self) {
    }

    proof fn lemma_transitive(a: Self, b: Self, c: Self) {
    }

    fn le(&self, other: &Self) -> (r: bool) {
        self.revision_num <= other.revision_num
    }
}

impl RevisionRow {
    /// Whether this is a correction of the memory `rid`.
    pub open spec fn corrects(self, rid: Seq<char>) -> bool {
        self.rid@ == rid
    }
}

/// The entry for a row whose text was read as `text` and whose metadata was
/// read as `metadata`, null standing in for metadata that is not JSON.
pub open spec fn entry_of(
    row: RevisionRow,
    text: String,
    metadata: serde_json::Value,
) -> RevisionEntry {
    RevisionEntry {
        revision_id: row.revision_id,
        rid: row.rid,
        revision_num: row.revision_num,
        prior_text: text,
        prior_metadata: metadata,
        prior_importance: row.prior_importance,
        prior_valence: row.prior_valence,
        reason: row.reason,
        applied_at: row.applied_at,
        origin_actor: row.origin_actor,
    }
}

/// What a row of the archive holds: the prior state, or why its text or else
/// its metadata could not be decrypted.
pub open spec fn hydrated(row: RevisionRow) -> Result<RevisionEntry, String> {
    match (row.prior_text, row.prior_metadata) {
        (Err(e), _) => Err(e),
        (Ok(_), Err(e)) => Err(e),
        (Ok(text), Ok(metadata)) => Ok(entry_of(row, text, value_or_null(metadata@))),
    }
}

/// What the rows of the archive hold, in their order, or why the first that
/// could not be decrypted was not.
pub open spec fn hydrated_all(rows: Seq<RevisionRow>) -> Result<Seq<RevisionEntry>, String>
    decreases rows.len(),
{
    if rows.len() == 0 {
        Ok(Seq::empty())
    } else {
        match (hydrated_all(rows.drop_last()), hydrated(rows.last())) {
            (Err(e), _) => Err(e),
            (Ok(_), Err(e)) => Err(e),
            (Ok(entries), Ok(entry)) => Ok(entries.push(entry)),
        }
    }
}

/// A row that could not be decrypted fails all that follow.
proof fn lemma_hydrated_fails(rows: Seq<RevisionRow>, k: int)
    requires
        0 <= k <= rows.len(),
        hydrated_all(rows.take(k)) is Err,
    ensures
        hydrated_all(rows) == hydrated_all(rows.take(k)),
    decreases rows.len(),
{
    if k == rows.len() {
        assert(rows.take(k) =~= rows);
    } else {
        assert(rows.drop_last().take(k) =~= rows.take(k));
        lemma_hydrated_fails(rows.drop_last(), k);
    }
}

fn copy_read(read: &Result<String, String>) -> (r: Result<String, String>)
    ensures
        r == *read,
{
    match read {
        Ok(text) => Ok(text.clone()),
        Err(e) => Err(e.clone()),
    }
}

fn copy_revision(row: &RevisionRow) -> (r: RevisionRow)
    ensures
        r == *row,
{
    RevisionRow {
        revision_id: row.revision_id.clone(),
        rid: row.rid.clone(),
        revision_num: row.revision_num,
        prior_text: copy_read(&row.prior_text),
        prior_metadata: copy_read(&row.prior_metadata),
        prior_importance: row.prior_importance,
        prior_valence: row.prior_valence,
        reason: row.reason.clone(),
        applied_at: row.applied_at,
        origin_actor: row.origin_actor.clone(),
    }
}

/// The entry for a row, given its decrypted text and what its decrypted
/// metadata was read as.
pub fn revision_entry(row: RevisionRow, text: String, metadata: serde_json::Value) -> (r:
    RevisionEntry)
    ensures
        r == entry_of(row, text, metadata),
        r.revision_id == row.revision_id,
        r.rid == row.rid,
        r.revision_num == row.revision_num,
        r.prior_text == text,
        r.prior_metadata == metadata,
        r.prior_importance == row.prior_importance,
        r.prior_valence == row.prior_valence,
        r.reason == row.reason,
        r.applied_at == row.applied_at,
        r.origin_actor == row.origin_actor,
{
    RevisionEntry {
        revision_id: row.revision_id,
        rid: row.rid,
        revision_num: row.revision_num,
        prior_text: text,
        prior_metadata: metadata,
        prior_importance: row.prior_importance,
        prior_valence: row.prior_valence,
        reason: row.reason,
        applied_at: row.applied_at,
        origin_actor: row.origin_actor,
    }
}

fn hydrate(row: &RevisionRow) -> (r: Result<RevisionEntry, String>)
    ensures
        r == hydrated(*row),
{
    let copy = copy_revision(row);
    let text = match &row.prior_text {
        Ok(text) => text.clone(),
        Err(e) => {
            return Err(e.clone());
        },
    };
    match &row.prior_metadata {
        Ok(metadata) => Ok(revision_entry(copy, text, parse_or_null(metadata.as_str()))),
        Err(e) => Err(e.clone()),
    }
}

impl YantrikDB {
    /// The archived corrections of the memory `rid`, the oldest first.
    pub open spec fn revisions_of(self, rid: Seq<char>) -> Seq<RevisionRow> {
        arranged(self.record_revisions@.filter(|row: RevisionRow| row.corrects(rid)))
    }

    /// The history of the memory `rid`: its corrections as the states before
    /// them, or why the first of them that could not be decrypted was not.
    pub open spec fn history(self, rid: Seq<char>) -> Result<Seq<RevisionEntry>, String> {
        hydrated_all(self.revisions_of(rid))
    }

    fn collect_revisions(&self, rid: &str) -> (r: Vec<RevisionRow>)
        ensures
            r@ == self.revisions_of(rid@),
    {
        let ghost kept = |row: RevisionRow| row.corrects(rid@);
        let mut out: Vec<RevisionRow> = Vec::new();
        let mut i: usize = 0;
        while i < self.record_revisions.len()
            invariant
                i <= self.record_revisions.len(),
                kept == (|row: RevisionRow| row.corrects(rid@)),
                out@ == arranged(self.record_revisions@.take(i as int).filter(kept)),
            decreases self.record_revisions.len() - i,
        {
            let row = &self.record_revisions[i];
            let ghost front = self.record_revisions@.take(i as int);
            assert(self.record_revisions@.take(i + 1) =~= front.push(*row));
            proof {
                reveal(Seq::filter);
                assert(front.push(*row).drop_last() =~= front);
            }
            if same_text(row.rid.as_str(), rid) {
                proof {
                    lemma_arranged_push(front.filter(kept), *row);
                }
                insert_in_order(&mut out, copy_revision(row));
            }
            i += 1;
        }
        assert(self.record_revisions@.take(i as int) =~= self.record_revisions@);
        out
    }

    /// Every correction ever applied to `rid`, the oldest first, as the state
    /// before it. Empty for a memory that was never corrected and for an
    /// unknown rid. Fails with the first row that could not be decrypted.
    pub fn revision_history(&self, rid: &str) -> (r: Result<Vec<RevisionEntry>, String>)
        ensures
            in_order(self.revisions_of(rid@)),
            match r {
                Ok(entries) => self.history(rid@) == Ok::<Seq<RevisionEntry>, String>(entries@),
                Err(e) => self.history(rid@) == Err::<Seq<RevisionEntry>, String>(e),
            },
            match r {
                Ok(entries) => {
                    &&& entries@.len() == self.revisions_of(rid@).len()
                    &&& forall|i: int|
                        0 <= i < entries@.len() ==> hydrated(self.revisions_of(rid@)[i]) == Ok::<
                            RevisionEntry,
                            String,
                        >(#[trigger] entries@[i])
                    &&& forall|i: int|
                        0 <= i < entries@.len() ==> (#[trigger] entries@[i]).rid@ == rid@
                    &&& forall|i: int|
                        0 <= i < entries@.len() ==> {
                            let row = self.revisions_of(rid@)[i];
                            &&& (#[trigger] entries@[i]).revision_id@ == row.revision_id@
                            &&& entries@[i].rid@ == row.rid@
                            &&& entries@[i].revision_num == row.revision_num
                            &&& entries@[i].prior_importance == row.prior_importance
                            &&& entries@[i].prior_valence == row.prior_valence
                            &&& entries@[i].reason@ == row.reason@
                            &&& entries@[i].applied_at == row.applied_at
                            &&& entries@[i].origin_actor@ == row.origin_actor@
                            &&& row.prior_text matches Ok(text) && entries@[i].prior_text@ == text@
                            &&& row.prior_metadata matches Ok(metadata)
                                && entries@[i].prior_metadata == match json_value(metadata@) {
                                Some(value) => value,
                                None => json_value("null"@)->0,
                            }
                        }
                    &&& forall|i: int, j: int|
                        0 <= i < j < entries@.len() ==> (#[trigger] entries@[i]).revision_num <= (
                        #[trigger] entries@[j]).revision_num
                },
                Err(e) => exists|i: int|
                    {
                        &&& 0 <= i < self.revisions_of(rid@).len()
                        &&& hydrated(#[trigger] self.revisions_of(rid@)[i]) == Err::<
                            RevisionEntry,
                            String,
                        >(e)
                        &&& forall|j: int|
                            0 <= j < i ==> hydrated(#[trigger] self.revisions_of(rid@)[j]) is Ok
                        &&& match self.revisions_of(rid@)[i].prior_text {
                            Err(why) => e == why,
                            Ok(_) => self.revisions_of(rid@)[i].prior_metadata matches Err(why) && e
                                == why,
                        }
                        &&& forall|j: int|
                            0 <= j < i ==> (#[trigger] self.revisions_of(rid@)[j]).prior_text is Ok
                                && self.revisions_of(rid@)[j].prior_metadata is Ok
                    },
            },
    {
        proof {
            law_arranged(self.record_revisions@.filter(|row: RevisionRow| row.corrects(rid@)));
        }
        let rows = self.collect_revisions(rid);
        let mut out: Vec<RevisionEntry> = Vec::new();
        let mut i: usize = 0;
        while i < rows.len()
            invariant
                i <= rows.len(),
                rows@ == self.revisions_of(rid@),
                in_order(self.revisions_of(rid@)),
                out@.len() == i,
                hydrated_all(rows@.take(i as int)) == Ok::<Seq<RevisionEntry>, String>(out@),
                forall|j: int|
                    0 <= j < i ==> hydrated(#[trigger] rows@[j]) == Ok::<RevisionEntry, String>(
                        out@[j],
                    ),
            decreases rows.len() - i,
        {
            assert(rows@.take(i + 1).drop_last() =~= rows@.take(i as int));
            match hydrate(&rows[i]) {
                Ok(entry) => {
                    out.push(entry);
                },
                Err(e) => {
                    assert(hydrated(self.revisions_of(rid@)[i as int]) == Err::<
                        RevisionEntry,
                        String,
                    >(e));
                    proof {
                        lemma_hydrated_fails(rows@, i + 1);
                    }
                    return Err(e);
                },
            }
            i += 1;
        }
        proof {
            assert(rows@.take(i as int) =~= rows@);
            assert forall|i: int| 0 <= i < out@.len() implies (#[trigger] out@[i]).rid@ == rid@ by {
                assert(hydrated(rows@[i]) == Ok::<RevisionEntry, String>(out@[i]));
                law_reads_are_scoped_revisions(*self, rid@, i);
            }
            assert forall|i: int| 0 <= i < out@.len() implies hydrated(rows@[i]) == Ok::<
                RevisionEntry,
                String,
            >(#[trigger] out@[i]) by {
                assert(hydrated(rows@[i]) == Ok::<RevisionEntry, String>(out@[i]));
            }
            assert forall|i: int, j: int| 0 <= i < j < out@.len() implies (
            #[trigger] out@[i]).revision_num <= (#[trigger] out@[j]).revision_num by {
                assert(hydrated(rows@[i]) == Ok::<RevisionEntry, String>(out@[i]));
                assert(hydrated(rows@[j]) == Ok::<RevisionEntry, String>(out@[j]));
                assert(rows@[i].at_most(rows@[j]));
            }
        }
        Ok(out)
    }
}

// Entities --------------------------------------------------------------

impl EntityLink {
    /// Whether this links the memory `rid`.
    pub open spec fn links(self, rid: Seq<char>) -> bool {
        self.memory_rid@ == rid
    }
}

impl YantrikDB {
    /// The names of the entities linked to the memory `rid`, as the table
    /// holds them.
    pub open spec fn links_of(self, rid: Seq<char>) -> Seq<String> {
        self.entity_links@.filter(|link: EntityLink| link.links(rid)).map_values(
            |link: EntityLink| link.entity_name,
        )
    }

    /// The stored entity names linked to `rid`, sorted. Empty for an unlinked
    /// or unknown rid.
    pub fn memory_entities(&self, rid: &str) -> (r: Vec<String>)
        ensures
            r@ == arranged(self.links_of(rid@)),
            in_order(r@),
            r@.to_multiset() == self.links_of(rid@).to_multiset(),
    {
        let ghost kept = |link: EntityLink| link.links(rid@);
        let ghost named = |link: EntityLink| link.entity_name;
        let mut out: Vec<String> = Vec::new();
        let mut i: usize = 0;
        while i < self.entity_links.len()
            invariant
                i <= self.entity_links.len(),
                kept == (|link: EntityLink| link.links(rid@)),
                named == (|link: EntityLink| link.entity_name),
                out@ == arranged(self.entity_links@.take(i as int).filter(kept).map_values(named)),
            decreases self.entity_links.len() - i,
        {
            let link = &self.entity_links[i];
            let ghost front = self.entity_links@.take(i as int);
            let ghost so_far = front.filter(kept).map_values(named);
            assert(self.entity_links@.take(i + 1) =~= front.push(*link));
            proof {
                reveal(Seq::filter);
                assert(front.push(*link).drop_last() =~= front);
            }
            if same_text(link.memory_rid.as_str(), rid) {
                let name = link.entity_name.clone();
                proof {
                    lemma_arranged_push(so_far, name);
                    assert(self.entity_links@.take(i + 1).filter(kept).map_values(named)
                        =~= so_far.push(name));
                }
                insert_in_order(&mut out, name);
            }
            i += 1;
        }
        proof {
            assert(self.entity_links@.take(i as int) =~= self.entity_links@);
            law_arranged(self.links_of(rid@));
        }
        out
    }
}

// Laws ------------------------------------------------------------------

/// The corrections listed for a memory are corrections of that memory.
pub proof fn law_reads_are_scoped_revisions(db: YantrikDB, rid: Seq<char>, i: int)
    requires
        0 <= i < db.revisions_of(rid).len(),
    ensures
        db.revisions_of(rid)[i].rid@ == rid,
        db.record_revisions@.contains(db.revisions_of(rid)[i]),
{
    let all = db.record_revisions@;
    let kept = |row: RevisionRow| row.corrects(rid);
    let row = db.revisions_of(rid)[i];
    assert(arranged(all.filter(kept)).contains(row));
    lemma_arranged_contains(all.filter(kept), row);
    let k = choose|k: int| 0 <= k < all.filter(kept).len() && all.filter(kept)[k] == row;
    all.lemma_filter_contains_rev(kept, row);
    assert(kept(all.filter(kept)[k]));
}

/// The claims shown for a memory are claims that it backs and that were not
/// taken back, and every such claim is shown.
pub proof fn law_reads_are_scoped_claims(db: YantrikDB, rid: Seq<char>, now: Double, claim: Claim)
    ensures
        arranged(db.claims_of(rid, now)).contains(claim) <==> exists|i: int|
            0 <= i < db.claims@.len() && (#[trigger] db.claims@[i]).backed_by(rid) && claim
                == claim_of(db.claims@[i], db.conflicts@, now),
{
    let all = db.claims@;
    let kept = |row: ClaimRow| row.backed_by(rid);
    let made = |row: ClaimRow| claim_of(row, db.conflicts@, now);
    let list = all.filter(kept);
    lemma_arranged_contains(db.claims_of(rid, now), claim);
    assert(db.claims_of(rid, now) =~= list.map_values(made));
    if db.claims_of(rid, now).contains(claim) {
        let k = choose|k: int|
            0 <= k < db.claims_of(rid, now).len() && db.claims_of(rid, now)[k] == claim;
        assert(list.contains(list[k]));
        all.lemma_filter_contains_rev(kept, list[k]);
        let i = choose|i: int| 0 <= i < all.len() && all[i] == list[k];
        assert(all[i].backed_by(rid) && claim == claim_of(all[i], db.conflicts@, now));
    }
    if exists|i: int|
        0 <= i < all.len() && (#[trigger] all[i]).backed_by(rid) && claim == claim_of(
            all[i],
            db.conflicts@,
            now,
        ) {
        let i = choose|i: int|
            0 <= i < all.len() && (#[trigger] all[i]).backed_by(rid) && claim == claim_of(
                all[i],
                db.conflicts@,
                now,
            );
        assert(kept(all[i]));
        assert(list.contains(all[i]));
        let k = choose|k: int| 0 <= k < list.len() && list[k] == all[i];
        assert(db.claims_of(rid, now)[k] == claim);
    }
}

/// Every claim shown for a memory comes from a row that names the memory as
/// its source and was not taken back, and holds each of its columns.
pub proof fn law_claims_keep_their_columns(db: YantrikDB, rid: Seq<char>, now: Double)
    ensures
        forall|i: int|
            0 <= i < arranged(db.claims_of(rid, now)).len() ==> exists|k: int|
                {
                    let c = arranged(db.claims_of(rid, now))[i];
                    &&& 0 <= k < db.claims@.len()
                    &&& (#[trigger] db.claims@[k]).source_memory_rid matches Some(source) && source@
                        == rid
                    &&& !db.claims@[k].tombstoned
                    &&& (#[trigger] arranged(db.claims_of(rid, now))[i]).claim_id@ == db.claims@[k].claim_id@
                    &&& c.src@ == db.claims@[k].src@
                    &&& c.dst@ == db.claims@[k].dst@
                    &&& c.rel_type@ == db.claims@[k].rel_type@
                    &&& c.weight == db.claims@[k].weight
                    &&& c.created_at == db.claims@[k].created_at
                    &&& c.polarity == db.claims@[k].polarity
                    &&& c.modality@ == db.claims@[k].modality@
                    &&& c.valid_from == db.claims@[k].valid_from
                    &&& c.valid_to == db.claims@[k].valid_to
                    &&& c.extractor@ == db.claims@[k].extractor@
                    &&& c.confidence_band@ == db.claims@[k].confidence_band@
                    &&& c.namespace@ == db.claims@[k].namespace@
                    &&& c.grounding == db.claims@[k].grounding
                    &&& c.source_memory_rid == db.claims@[k].source_memory_rid
                    &&& c.status_suggestion == status_of(db.claims@[k], db.conflicts@, now)
                },
{
    let shown = arranged(db.claims_of(rid, now));
    assert forall|i: int| 0 <= i < shown.len() implies exists|k: int|
        {
            let c = shown[i];
            &&& 0 <= k < db.claims@.len()
            &&& (#[trigger] db.claims@[k]).source_memory_rid matches Some(source) && source@ == rid
            &&& !db.claims@[k].tombstoned
            &&& (#[trigger] shown[i]).claim_id@ == db.claims@[k].claim_id@
            &&& c.src@ == db.claims@[k].src@
            &&& c.dst@ == db.claims@[k].dst@
            &&& c.rel_type@ == db.claims@[k].rel_type@
            &&& c.weight == db.claims@[k].weight
            &&& c.created_at == db.claims@[k].created_at
            &&& c.polarity == db.claims@[k].polarity
            &&& c.modality@ == db.claims@[k].modality@
            &&& c.valid_from == db.claims@[k].valid_from
            &&& c.valid_to == db.claims@[k].valid_to
            &&& c.extractor@ == db.claims@[k].extractor@
            &&& c.confidence_band@ == db.claims@[k].confidence_band@
            &&& c.namespace@ == db.claims@[k].namespace@
            &&& c.grounding == db.claims@[k].grounding
            &&& c.source_memory_rid == db.claims@[k].source_memory_rid
            &&& c.status_suggestion == status_of(db.claims@[k], db.conflicts@, now)
        } by {
        let c = shown[i];
        assert(shown.contains(c));
        law_reads_are_scoped_claims(db, rid, now, c);
        let k = choose|k: int|
            0 <= k < db.claims@.len() && (#[trigger] db.claims@[k]).backed_by(rid) && c == claim_of(
                db.claims@[k],
                db.conflicts@,
                now,
            );
        assert(db.claims@[k].claim_id@ == c.claim_id@);
    }
}

/// The table of claims decides what is shown, row by row: a further row that
/// names the memory and was not taken back adds one claim with its columns,
/// and any other row changes nothing. Without rows there are no claims.
pub proof fn law_a_further_row_adds_its_claim(
    before: YantrikDB,
    after: YantrikDB,
    rid: Seq<char>,
    now: Double,
    row: ClaimRow,
)
    requires
        after.claims@ == before.claims@.push(row),
        after.conflicts@ == before.conflicts@,
    ensures
        before.claims@.len() == 0 ==> arranged(before.claims_of(rid, now)).len() == 0,
        if (row.source_memory_rid matches Some(source) && source@ == rid) && !row.tombstoned {
            exists|c: Claim|
                {
                    &&& #[trigger] before.claims_of(rid, now).to_multiset().insert(c)
                        == arranged(after.claims_of(rid, now)).to_multiset()
                    &&& c.claim_id@ == row.claim_id@
                    &&& c.src@ == row.src@
                    &&& c.dst@ == row.dst@
                    &&& c.rel_type@ == row.rel_type@
                    &&& c.weight == row.weight
                    &&& c.created_at == row.created_at
                    &&& c.polarity == row.polarity
                    &&& c.modality@ == row.modality@
                    &&& c.valid_from == row.valid_from
                    &&& c.valid_to == row.valid_to
                    &&& c.extractor@ == row.extractor@
                    &&& c.confidence_band@ == row.confidence_band@
                    &&& c.namespace@ == row.namespace@
                    &&& c.grounding == row.grounding
                    &&& c.source_memory_rid == row.source_memory_rid
                    &&& c.status_suggestion == status_of(row, after.conflicts@, now)
                }
        } else {
            arranged(after.claims_of(rid, now)) == arranged(before.claims_of(rid, now))
        },
        arranged(before.claims_of(rid, now)).to_multiset() == before.claims_of(
            rid,
            now,
        ).to_multiset(),
{
    broadcast use vstd::seq_lib::group_to_multiset_ensures;

    let kept = |r: ClaimRow| r.backed_by(rid);
    let made = |r: ClaimRow| claim_of(r, before.conflicts@, now);
    let all = before.claims@;
    reveal(Seq::filter);
    assert(all.push(row).drop_last() =~= all);
    assert(before.claims_of(rid, now) =~= all.filter(kept).map_values(made));
    assert(after.claims_of(rid, now) =~= all.push(row).filter(kept).map_values(made));
    law_arranged(before.claims_of(rid, now));
    law_arranged(after.claims_of(rid, now));
    if row.backed_by(rid) {
        let c = claim_of(row, before.conflicts@, now);
        assert(after.claims_of(rid, now) =~= before.claims_of(rid, now).push(c));
        assert(before.claims_of(rid, now).to_multiset().insert(c) == arranged(
            after.claims_of(rid, now),
        ).to_multiset());
    } else {
        assert(after.claims_of(rid, now) =~= before.claims_of(rid, now));
    }
}

/// What the status of a claim says: denied; ended before now; with an end that
/// is not past; named by a side of an open conflict, itself or its memory; or
/// none of these.
pub proof fn law_status_of_a_claim(row: ClaimRow, conflicts: Seq<ConflictRow>, now: Double)
    ensures
        ({
            let status = status_of(row, conflicts, now);
            let is_open = |c: ConflictRow, id: Seq<char>|
                c.status@ == "open"@ && ((c.memory_a matches Some(a) && a@ == id) || (
                c.memory_b matches Some(b) && b@ == id));
            let contested = exists|j: int|
                0 <= j < conflicts.len() && {
                    ||| is_open(#[trigger] conflicts[j], row.claim_id@)
                    ||| (row.source_memory_rid matches Some(rid) && is_open(conflicts[j], rid@))
                };
            &&& status == Status::Negative <==> row.polarity == -1
            &&& status == Status::Historical <==> row.polarity != -1 && (row.valid_to matches Some(
                end,
            ) && end.is_less(now))
            &&& status == Status::Superseded <==> row.polarity != -1 && (row.valid_to matches Some(
                end,
            ) && !end.is_less(now))
            &&& status == Status::Conflicted <==> row.polarity != -1 && row.valid_to is None
                && contested
            &&& status == Status::Active <==> row.polarity != -1 && row.valid_to is None
                && !contested
        }),
{
    let is_open = |c: ConflictRow, id: Seq<char>|
        c.status@ == "open"@ && ((c.memory_a matches Some(a) && a@ == id) || (
        c.memory_b matches Some(b) && b@ == id));
    assert forall|j: int, id: Seq<char>| 0 <= j < conflicts.len() implies is_open(
        #[trigger] conflicts[j],
        id,
    ) == #[trigger] conflicts[j].disputes(id) by {
    }
    let contested = exists|j: int|
        0 <= j < conflicts.len() && {
            ||| is_open(#[trigger] conflicts[j], row.claim_id@)
            ||| (row.source_memory_rid matches Some(rid) && is_open(conflicts[j], rid@))
        };
    if disputed(conflicts, row.claim_id@) {
        let j = choose|j: int|
            0 <= j < conflicts.len() && (#[trigger] conflicts[j]).disputes(row.claim_id@);
        assert(is_open(conflicts[j], row.claim_id@));
    }
    if let Some(rid) = row.source_memory_rid {
        if disputed(conflicts, rid@) {
            let j = choose|j: int|
                0 <= j < conflicts.len() && (#[trigger] conflicts[j]).disputes(rid@);
            assert(is_open(conflicts[j], rid@));
        }
    }
    if contested {
        let j = choose|j: int|
            0 <= j < conflicts.len() && {
                ||| is_open(#[trigger] conflicts[j], row.claim_id@)
                ||| (row.source_memory_rid matches Some(rid) && is_open(conflicts[j], rid@))
            };
        assert(conflicts[j].disputes(row.claim_id@) || (row.source_memory_rid matches Some(rid)
            && conflicts[j].disputes(rid@)));
    }
}

/// The archive decides the history, row by row: a further row of the memory is
/// one more correction of it, and any other row changes nothing. Without rows
/// there is no history.
pub proof fn law_a_further_row_is_one_more_correction(
    before: YantrikDB,
    after: YantrikDB,
    rid: Seq<char>,
    row: RevisionRow,
)
    requires
        after.record_revisions@ == before.record_revisions@.push(row),
    ensures
        before.record_revisions@.len() == 0 ==> before.revisions_of(rid).len() == 0,
        if row.rid@ == rid {
            after.revisions_of(rid).to_multiset() == before.revisions_of(rid).to_multiset().insert(
                row,
            )
        } else {
            after.revisions_of(rid) == before.revisions_of(rid)
        },
{
    broadcast use vstd::seq_lib::group_to_multiset_ensures;

    let kept = |r: RevisionRow| r.corrects(rid);
    let all = before.record_revisions@;
    reveal(Seq::filter);
    assert(all.push(row).drop_last() =~= all);
    law_arranged(all.filter(kept));
    law_arranged(all.push(row).filter(kept));
    if row.rid@ == rid {
        assert(all.push(row).filter(kept) =~= all.filter(kept).push(row));
    } else {
        assert(all.push(row).filter(kept) =~= all.filter(kept));
    }
}

/// The table of links decides the names, link by link: a further link of the
/// memory adds the name of its entity, and any other link changes nothing.
/// Without links there are no names. The names stand in the order of texts.
pub proof fn law_a_further_link_adds_its_name(
    before: YantrikDB,
    after: YantrikDB,
    rid: Seq<char>,
    link: EntityLink,
)
    requires
        after.entity_links@ == before.entity_links@.push(link),
    ensures
        before.entity_links@.len() == 0 ==> arranged(before.links_of(rid)).len() == 0,
        if link.memory_rid@ == rid {
            arranged(after.links_of(rid)).to_multiset() == arranged(
                before.links_of(rid),
            ).to_multiset().insert(link.entity_name)
        } else {
            arranged(after.links_of(rid)) == arranged(before.links_of(rid))
        },
        forall|i: int, j: int|
            0 <= i < j < arranged(before.links_of(rid)).len() ==> text_at_most(
                (#[trigger] arranged(before.links_of(rid))[i])@,
                (#[trigger] arranged(before.links_of(rid))[j])@,
            ),
{
    broadcast use vstd::seq_lib::group_to_multiset_ensures;

    let kept = |l: EntityLink| l.links(rid);
    let named = |l: EntityLink| l.entity_name;
    let all = before.entity_links@;
    reveal(Seq::filter);
    assert(all.push(link).drop_last() =~= all);
    assert(before.links_of(rid) =~= all.filter(kept).map_values(named));
    assert(after.links_of(rid) =~= all.push(link).filter(kept).map_values(named));
    law_arranged(before.links_of(rid));
    law_arranged(after.links_of(rid));
    if link.memory_rid@ == rid {
        assert(after.links_of(rid) =~= before.links_of(rid).push(link.entity_name));
    } else {
        assert(after.links_of(rid) =~= before.links_of(rid));
    }
    let list = arranged(before.links_of(rid));
    assert forall|i: int, j: int| 0 <= i < j < list.len() implies text_at_most(
        (#[trigger] list[i])@,
        (#[trigger] list[j])@,
    ) by {
        assert(list[i].at_most(list[j]));
    }
}

/// The entity names listed for a memory are those of its links, all of them.
pub proof fn law_reads_are_scoped_entities(db: YantrikDB, rid: Seq<char>, name: String)
    ensures
        arranged(db.links_of(rid)).contains(name) <==> exists|i: int|
            0 <= i < db.entity_links@.len() && (#[trigger] db.entity_links@[i]).memory_rid@ == rid
                && db.entity_links@[i].entity_name == name,
{
    let all = db.entity_links@;
    let kept = |link: EntityLink| link.links(rid);
    let named = |link: EntityLink| link.entity_name;
    let list = all.filter(kept);
    lemma_arranged_contains(db.links_of(rid), name);
    assert(db.links_of(rid) =~= list.map_values(named));
    if db.links_of(rid).contains(name) {
        let k = choose|k: int| 0 <= k < db.links_of(rid).len() && db.links_of(rid)[k] == name;
        assert(list.contains(list[k]));
        all.lemma_filter_contains_rev(kept, list[k]);
        let i = choose|i: int| 0 <= i < all.len() && all[i] == list[k];
        assert(all[i].memory_rid@ == rid && all[i].entity_name == name);
    }
    if exists|i: int|
        0 <= i < all.len() && (#[trigger] all[i]).memory_rid@ == rid && all[i].entity_name == name {
        let i = choose|i: int|
            0 <= i < all.len() && (#[trigger] all[i]).memory_rid@ == rid && all[i].entity_name
                == name;
        assert(kept(all[i]));
        assert(list.contains(all[i]));
        let k = choose|k: int| 0 <= k < list.len() && list[k] == all[i];
        assert(db.links_of(rid)[k] == name);
    }
}

/// A memory of which the store knows nothing has no claims, no history and no
/// entities.
pub proof fn law_unknown_memories_are_empty(db: YantrikDB, rid: Seq<char>, now: Double)
    requires
        forall|i: int| 0 <= i < db.claims@.len() ==> !(#[trigger] db.claims@[i]).backed_by(rid),
        forall|i: int|
            0 <= i < db.record_revisions@.len() ==> (#[trigger] db.record_revisions@[i]).rid@
                != rid,
        forall|i: int|
            0 <= i < db.entity_links@.len() ==> (#[trigger] db.entity_links@[i]).memory_rid@ != rid,
    ensures
        arranged(db.claims_of(rid, now)).len() == 0,
        db.revisions_of(rid).len() == 0,
        arranged(db.links_of(rid)).len() == 0,
{
    if arranged(db.claims_of(rid, now)).len() > 0 {
        let claim = arranged(db.claims_of(rid, now))[0];
        law_reads_are_scoped_claims(db, rid, now, claim);
        assert(arranged(db.claims_of(rid, now)).contains(claim));
    }
    if db.revisions_of(rid).len() > 0 {
        law_reads_are_scoped_revisions(db, rid, 0);
        let row = db.revisions_of(rid)[0];
        let i = choose|i: int|
            0 <= i < db.record_revisions@.len() && db.record_revisions@[i] == row;
        assert(db.record_revisions@[i].rid@ == rid);
    }
    if arranged(db.links_of(rid)).len() > 0 {
        let name = arranged(db.links_of(rid))[0];
        law_reads_are_scoped_entities(db, rid, name);
        assert(arranged(db.links_of(rid)).contains(name));
    }
}

/// Whether the claims read at another time are the same ones in the same
/// order, of which only those with an end of validity may have another status.
pub open spec fn same_claims(a: Seq<Claim>, b: Seq<Claim>) -> bool {
    &&& a.len() == b.len()
    &&& forall|i: int|
        #![trigger a[i]]
        #![trigger b[i]]
        0 <= i < a.len() ==> {
            &&& b[i] == (Claim { status_suggestion: b[i].status_suggestion, ..a[i] })
            &&& a[i].valid_to is None ==> b[i] == a[i]
            &&& a[i].status_suggestion == Status::Active <==> b[i].status_suggestion
                == Status::Active
        }
}

proof fn lemma_same_place(a: Seq<Claim>, b: Seq<Claim>, x: Claim, y: Claim)
    requires
        same_claims(a, b),
        y.created_at == x.created_at,
        y.claim_id == x.claim_id,
    ensures
        place(a, x) == place(b, y),
    decreases a.len(),
{
    if a.len() > 0 {
        assert(a.last() == a[a.len() - 1]);
        assert(same_claims(a.drop_last(), b.drop_last()));
        lemma_same_place(a.drop_last(), b.drop_last(), x, y);
    }
}

proof fn lemma_same_arranged(a: Seq<Claim>, b: Seq<Claim>)
    requires
        same_claims(a, b),
    ensures
        same_claims(arranged(a), arranged(b)),
    decreases a.len(),
{
    if a.len() > 0 {
        let (x, y) = (a.last(), b.last());
        assert(x == a[a.len() - 1]);
        assert(same_claims(a.drop_last(), b.drop_last()));
        lemma_same_arranged(a.drop_last(), b.drop_last());
        let (f, g) = (arranged(a.drop_last()), arranged(b.drop_last()));
        lemma_same_place(f, g, x, y);
        lemma_arranged_push(a.drop_last(), x);
        lemma_arranged_push(b.drop_last(), y);
        assert(a.drop_last().push(x) =~= a);
        assert(b.drop_last().push(y) =~= b);
        let at = place(f, x);
        let (s, t) = (arranged(a), arranged(b));
        assert forall|i: int| #![trigger s[i]] #![trigger t[i]] 0 <= i < s.len() implies {
            &&& t[i] == (Claim { status_suggestion: t[i].status_suggestion, ..s[i] })
            &&& s[i].valid_to is None ==> t[i] == s[i]
            &&& s[i].status_suggestion == Status::Active <==> t[i].status_suggestion
                == Status::Active
        } by {
            if i < at {
                assert(s[i] == f[i] && t[i] == g[i]);
            } else if i > at {
                assert(s[i] == f[i - 1] && t[i] == g[i - 1]);
            }
        }
    }
}

/// Corrections leave claims alone: a store that differs only in its archive
/// of corrections shows, now and at any later time, the same claims in the
/// same order. A claim without an end of validity still has none and keeps
/// its status; one that was active still is.
pub proof fn law_corrections_leave_claims_alone(
    before: YantrikDB,
    after: YantrikDB,
    rid: Seq<char>,
    now: Double,
    later: Double,
)
    requires
        before.claims@ == after.claims@,
        before.conflicts@ == after.conflicts@,
    ensures
        before.claims_of(rid, now) == after.claims_of(rid, now),
        same_claims(arranged(before.claims_of(rid, now)), arranged(after.claims_of(rid, later))),
{
    let list = before.claims@.filter(|row: ClaimRow| row.backed_by(rid));
    let (a, b) = (before.claims_of(rid, now), after.claims_of(rid, later));
    assert forall|i: int| #![trigger a[i]] #![trigger b[i]] 0 <= i < a.len() implies {
        &&& b[i] == (Claim { status_suggestion: b[i].status_suggestion, ..a[i] })
        &&& a[i].valid_to is None ==> b[i] == a[i]
        &&& a[i].status_suggestion == Status::Active <==> b[i].status_suggestion == Status::Active
    } by {
        assert(a[i] == claim_of(list[i], before.conflicts@, now));
        assert(b[i] == claim_of(list[i], before.conflicts@, later));
    }
    lemma_same_arranged(a, b);
}

/// One more correction goes to the end of the history and leaves what stood
/// there as it was: a store whose archive gained a row of the memory with a
/// number not below the others lists that row last.
pub proof fn law_corrections_extend_the_history(
    before: YantrikDB,
    after: YantrikDB,
    rid: Seq<char>,
    row: RevisionRow,
)
    requires
        after.record_revisions@ == before.record_revisions@.push(row),
        row.rid@ == rid,
        forall|i: int|
            0 <= i < before.revisions_of(rid).len() ==> (#[trigger] before.revisions_of(
                rid,
            )[i]).revision_num <= row.revision_num,
    ensures
        after.revisions_of(rid) == before.revisions_of(rid).push(row),
        after.history(rid) == match (before.history(rid), hydrated(row)) {
            (Err(e), _) => Err(e),
            (Ok(_), Err(e)) => Err(e),
            (Ok(entries), Ok(entry)) => Ok(entries.push(entry)),
        },
{
    let kept = |r: RevisionRow| r.corrects(rid);
    let all = before.record_revisions@;
    let list = before.revisions_of(rid);
    reveal(Seq::filter);
    assert(all.push(row).drop_last() =~= all);
    assert(all.push(row).filter(kept) =~= all.filter(kept).push(row));
    lemma_arranged_push(all.filter(kept), row);
    if list.len() > 0 {
        assert(list.last() == list[list.len() - 1]);
    }
    assert(place(list, row) == list.len());
    assert(list.insert(list.len() as int, row) =~= list.push(row));
    assert(list.push(row).drop_last() =~= list);
}

/// Corrections leave the histories of other memories alone.
pub proof fn law_corrections_are_of_one_memory(
    before: YantrikDB,
    after: YantrikDB,
    rid: Seq<char>,
    row: RevisionRow,
)
    requires
        after.record_revisions@ == before.record_revisions@.push(row),
        row.rid@ != rid,
    ensures
        after.revisions_of(rid) == before.revisions_of(rid),
        after.history(rid) == before.history(rid),
{
    let kept = |r: RevisionRow| r.corrects(rid);
    let all = before.record_revisions@;
    reveal(Seq::filter);
    assert(all.push(row).drop_last() =~= all);
    assert(all.push(row).filter(kept) =~= all.filter(kept));
}

impl YantrikDB {
    /// Whether the corrections of the memory `rid` are numbered from 1 on.
    pub open spec fn is_numbered(self, rid: Seq<char>) -> bool {
        forall|i: int|
            0 <= i < self.revisions_of(rid).len() ==> (#[trigger] self.revisions_of(
                rid,
            )[i]).revision_num == i + 1
    }
}

/// Where the corrections of a memory are numbered from 1 on, a correction that
/// archives the state before it under the next number adds one entry: the
/// history holds what it held, and then that state, its number and the reason.
pub proof fn law_corrections_archive_the_prior_state(
    before: YantrikDB,
    after: YantrikDB,
    rid: Seq<char>,
    entries: Seq<RevisionEntry>,
    row: RevisionRow,
    text: String,
    metadata: String,
)
    requires
        before.is_numbered(rid),
        before.history(rid) == Ok::<Seq<RevisionEntry>, String>(entries),
        after.record_revisions@ == before.record_revisions@.push(row),
        row.rid@ == rid,
        row.revision_num == entries.len() + 1,
        row.prior_text == Ok::<String, String>(text),
        row.prior_metadata == Ok::<String, String>(metadata),
    ensures
        after.is_numbered(rid),
        ({
            let last = entry_of(row, text, value_or_null(metadata@));
            &&& after.history(rid) == Ok::<Seq<RevisionEntry>, String>(entries.push(last))
            &&& last.revision_num == entries.len() + 1
            &&& last.reason == row.reason
            &&& last.prior_text == text
            &&& last.prior_metadata == value_or_null(metadata@)
            &&& last.prior_importance == row.prior_importance
            &&& last.prior_valence == row.prior_valence
            &&& last.revision_id == row.revision_id
            &&& last.rid == row.rid
            &&& last.applied_at == row.applied_at
            &&& last.origin_actor == row.origin_actor
        }),
{
    lemma_hydrated_len(before.revisions_of(rid));
    law_corrections_extend_the_history(before, after, rid, row);
}

proof fn lemma_hydrated_len(rows: Seq<RevisionRow>)
    ensures
        hydrated_all(rows) matches Ok(entries) ==> entries.len() == rows.len(),
    decreases rows.len(),
{
    if rows.len() > 0 {
        lemma_hydrated_len(rows.drop_last());
    }
}

/// A claim is called active only where it asserts something, has no end of
/// validity, and neither it nor its memory is in an open conflict.
pub proof fn law_active_claims_stand_unopposed(
    row: ClaimRow,
    conflicts: Seq<ConflictRow>,
    now: Double,
)
    ensures
        status_of(row, conflicts, now) == Status::Active <==> {
            &&& row.polarity != -1
            &&& row.valid_to is None
            &&& !disputed(conflicts, row.claim_id@)
            &&& row.source_memory_rid matches Some(rid) ==> !disputed(conflicts, rid@)
        },
{
}

/// A claim that has ended stays ended: once historical, always historical.
pub proof fn law_historical_claims_stay_historical(
    row: ClaimRow,
    conflicts: Seq<ConflictRow>,
    later_conflicts: Seq<ConflictRow>,
    now: Double,
    later: Double,
)
    requires
        status_of(row, conflicts, now) == Status::Historical,
        !later.is_nan(),
        now.value() <= later.value(),
    ensures
        status_of(row, later_conflicts, later) == Status::Historical,
{
}

} // verus!
