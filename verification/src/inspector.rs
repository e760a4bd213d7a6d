//! Everything the store holds about one memory, made ready for the screen.

use vstd::prelude::*;

use crate::calendar::{day_text, fmt_day, has_day, in_calendar};
use crate::double::{Double, INFINITE, SIGN};
use crate::fixed::{fixed, fixed_text};
use crate::inspect::{Claim, RevisionEntry};
use crate::json::{is_empty_object, is_null, json_text, value_text};
use crate::screen::{
    no_lines, no_texts, push_line, push_text, shown, texts, Line, Tone,
};
use crate::text::{signed_decimal, signed_decimal_of};

verus! {

/// A memory as the store records it.
pub struct Record {
    pub memory_type: String,
    pub namespace: String,
    pub importance: Double,
    pub consolidation_status: String,
    /// Unix seconds.
    pub created_at: Double,
    pub domain: String,
    pub source: String,
    pub metadata: serde_json::Value,
    pub text: String,
}

/// What the reads of one memory gave: the record, its entity links, the
/// claims it backs and its revision history.
pub struct Reads {
    pub record: Result<Option<Record>, String>,
    pub entities: Result<Vec<String>, String>,
    pub claims: Result<Vec<Claim>, String>,
    pub revisions: Result<Vec<RevisionEntry>, String>,
}

/// One memory as the inspector shows it.
pub struct Inspector {
    pub rid: String,
    pub header: Vec<Line>,
    pub text: String,
    pub entities: Vec<String>,
    pub claims: Vec<String>,
    pub revisions: Vec<String>,
}

/// The contents of an inspector.
#[verifier::ext_equal]
pub struct InspectorView {
    pub rid: Seq<char>,
    pub header: Seq<Seq<(Seq<char>, Tone)>>,
    pub text: Seq<char>,
    pub entities: Seq<Seq<char>>,
    pub claims: Seq<Seq<char>>,
    pub revisions: Seq<Seq<char>>,
}

impl View for Inspector {
    type V = InspectorView;

    open spec fn view(&self) -> InspectorView {
        InspectorView {
            rid: self.rid@,
            header: shown(self.header@),
            text: self.text@,
            entities: texts(self.entities@),
            claims: texts(self.claims@),
            revisions: texts(self.revisions@),
        }
    }
}

// The record ------------------------------------------------------------

/// Whether metadata say anything.
pub open spec fn has_metadata(metadata: serde_json::Value) -> bool {
    json_text(metadata) != "null"@ && json_text(metadata) != "{}"@
}

/// The header for a record: what it is, when and where it came from, its id,
/// and its metadata where they say anything.
pub open spec fn record_header(rid: Seq<char>, m: Record) -> Seq<Seq<(Seq<char>, Tone)>> {
    let lines = seq![
        seq![
            (m.memory_type@, Tone::Key),
            (" · "@, Tone::Dim),
            (m.namespace@, Tone::Plain),
            (" · importance "@, Tone::Dim),
            (fixed_text(m.importance, 2), Tone::Plain),
            (" · "@, Tone::Dim),
            (m.consolidation_status@, Tone::Plain),
        ],
        seq![
            ("created "@, Tone::Dim),
            (day_text(m.created_at), Tone::Plain),
            ("  domain "@, Tone::Dim),
            (m.domain@, Tone::Plain),
            ("  source "@, Tone::Dim),
            (m.source@, Tone::Plain),
        ],
        seq![(rid, Tone::Dim)],
    ];
    if has_metadata(m.metadata) {
        lines.push(seq![("metadata "@, Tone::Dim), (json_text(m.metadata), Tone::Plain)])
    } else {
        lines
    }
}

fn make_header(rid: &str, m: &Record) -> (r: Vec<Line>)
    requires
        in_calendar(m.created_at),
    ensures
        shown(r@) == record_header(rid@, *m),
{
    let mut lines = no_lines();
    let mut line = Line::new();
    line.push(m.memory_type.as_str(), Tone::Key);
    line.push(" · ", Tone::Dim);
    line.push(m.namespace.as_str(), Tone::Plain);
    line.push(" · importance ", Tone::Dim);
    line.push(fixed(&m.importance, 2).as_str(), Tone::Plain);
    line.push(" · ", Tone::Dim);
    line.push(m.consolidation_status.as_str(), Tone::Plain);
    push_line(&mut lines, line);
    let mut line = Line::new();
    line.push("created ", Tone::Dim);
    line.push(fmt_day(&m.created_at).as_str(), Tone::Plain);
    line.push("  domain ", Tone::Dim);
    line.push(m.domain.as_str(), Tone::Plain);
    line.push("  source ", Tone::Dim);
    line.push(m.source.as_str(), Tone::Plain);
    push_line(&mut lines, line);
    push_line(&mut lines, Line::of(rid, Tone::Dim));
    if !is_null(&m.metadata) && !is_empty_object(&m.metadata) {
        let mut line = Line::new();
        line.push("metadata ", Tone::Dim);
        line.push(value_text(&m.metadata).as_str(), Tone::Plain);
        push_line(&mut lines, line);
    }
    assert(shown(lines@) =~~= record_header(rid@, *m));
    lines
}

// Claims ----------------------------------------------------------------

/// A time that is a number.
pub open spec fn told(time: Option<Double>) -> Option<Double> {
    match time {
        Some(t) => if t.is_finite() {
            Some(t)
        } else {
            None
        },
        None => None,
    }
}

fn tell(time: &Option<Double>) -> (r: Option<Double>)
    ensures
        r == told(*time),
{
    match time {
        Some(t) => {
            let m: u64 = if t.bits >= SIGN {
                t.bits - SIGN
            } else {
                t.bits
            };
            if m < INFINITE {
                Some(*t)
            } else {
                None
            }
        },
        None => None,
    }
}

/// The validity window of a claim.
pub open spec fn window_text(from: Option<Double>, to: Option<Double>) -> Seq<char> {
    match (told(from), told(to)) {
        (Some(a), Some(b)) => " ["@ + day_text(a) + " → "@ + day_text(b) + "]"@,
        (Some(a), None) => " [from "@ + day_text(a) + "]"@,
        (None, Some(b)) => " [until "@ + day_text(b) + "]"@,
        (None, None) => ""@,
    }
}

/// Whether the calendar reaches a time that may not be given.
pub open spec fn datable(time: Option<Double>) -> bool {
    time matches Some(t) ==> in_calendar(t)
}

fn can_date(time: &Option<Double>) -> (r: bool)
    ensures
        r == datable(*time),
{
    match time {
        Some(t) => has_day(t),
        None => true,
    }
}

fn make_window(from: &Option<Double>, to: &Option<Double>) -> (r: String)
    requires
        datable(*from),
        datable(*to),
    ensures
        r@ == window_text(*from, *to),
{
    match (tell(from), tell(to)) {
        (Some(a), Some(b)) => " [".to_owned().concat(fmt_day(&a).as_str()).concat(" → ").concat(
            fmt_day(&b).as_str(),
        ).concat("]"),
        (Some(a), None) => " [from ".to_owned().concat(fmt_day(&a).as_str()).concat("]"),
        (None, Some(b)) => " [until ".to_owned().concat(fmt_day(&b).as_str()).concat("]"),
        (None, None) => "".to_owned(),
    }
}

/// One claim in a line: what it says or denies, its status, who extracted it,
/// and when it holds.
pub open spec fn claim_text(c: Claim) -> Seq<char> {
    c.src@ + " —"@ + (if c.polarity == -1 {
        " NOT"@
    } else {
        ""@
    }) + " "@ + c.rel_type@ + " → "@ + c.dst@ + "  ("@ + c.status_suggestion.word() + ", "@
        + c.extractor@ + ")"@ + window_text(c.valid_from, c.valid_to)
}

impl Claim {
    /// Whether the calendar reaches the validity of this claim.
    pub open spec fn is_datable(self) -> bool {
        datable(self.valid_from) && datable(self.valid_to)
    }
}

/// Whether the calendar reaches the validity of all these claims.
pub open spec fn claims_datable(claims: Seq<Claim>) -> bool {
    forall|i: int| 0 <= i < claims.len() ==> (#[trigger] claims[i]).is_datable()
}

fn can_date_claims(claims: &Vec<Claim>) -> (r: bool)
    ensures
        r == claims_datable(claims@),
{
    let mut i: usize = 0;
    while i < claims.len()
        invariant
            i <= claims.len(),
            forall|j: int| 0 <= j < i ==> (#[trigger] claims@[j]).is_datable(),
        decreases claims.len() - i,
    {
        if !can_date(&claims[i].valid_from) || !can_date(&claims[i].valid_to) {
            assert(!claims@[i as int].is_datable());
            return false;
        }
        i += 1;
    }
    true
}

/// One claim in a line.
pub fn describe_claim(c: &Claim) -> (r: String)
    requires
        c.is_datable(),
    ensures
        r@ == claim_text(*c),
{
    let not = if c.polarity == -1 {
        " NOT"
    } else {
        ""
    };
    c.src.clone().concat(" —").concat(not).concat(" ").concat(c.rel_type.as_str()).concat(
        " → ",
    ).concat(c.dst.as_str()).concat("  (").concat(c.status_suggestion.as_str()).concat(
        ", ",
    ).concat(c.extractor.as_str()).concat(")").concat(
        make_window(&c.valid_from, &c.valid_to).as_str(),
    )
}

/// The claims as lines, or why there are none.
pub open spec fn claim_texts(claims: Result<Vec<Claim>, String>) -> Seq<Seq<char>> {
    match claims {
        Ok(cs) => cs@.map_values(|c: Claim| claim_text(c)),
        Err(e) => seq!["claims unavailable: "@ + e@],
    }
}

fn describe_claims(claims: &Result<Vec<Claim>, String>) -> (r: Vec<String>)
    requires
        claims matches Ok(cs) ==> claims_datable(cs@),
    ensures
        texts(r@) == claim_texts(*claims),
{
    let mut out = no_texts();
    match claims {
        Ok(cs) => {
            let ghost all = cs@.map_values(|c: Claim| claim_text(c));
            let mut i: usize = 0;
            assert(all.take(0) =~= Seq::empty());
            while i < cs.len()
                invariant
                    i <= cs.len(),
                    all == cs@.map_values(|c: Claim| claim_text(c)),
                    texts(out@) == all.take(i as int),
                    claims_datable(cs@),
                decreases cs.len() - i,
            {
                let line = describe_claim(&cs[i]);
                push_text(&mut out, line);
                assert(all.take(i + 1) =~= all.take(i as int).push(all[i as int]));
                i += 1;
            }
            assert(all.take(i as int) =~= all);
        },
        Err(e) => {
            push_text(&mut out, "claims unavailable: ".to_owned().concat(e.as_str()));
            assert(texts(out@) =~= claim_texts(*claims));
        },
    }
    out
}

// Revisions -------------------------------------------------------------

/// One revision: its number, when and why it was made, and on a second line
/// the text before it.
pub open spec fn revision_text(r: RevisionEntry) -> Seq<char> {
    "r"@ + signed_decimal(r.revision_num as int) + " · "@ + day_text(r.applied_at) + " · "@
        + r.reason@ + "\n    was: "@ + r.prior_text@
}

/// Whether the calendar reaches all these revisions.
pub open spec fn revisions_datable(revisions: Seq<RevisionEntry>) -> bool {
    forall|i: int| 0 <= i < revisions.len() ==> in_calendar((#[trigger] revisions[i]).applied_at)
}

fn can_date_revisions(revisions: &Vec<RevisionEntry>) -> (r: bool)
    ensures
        r == revisions_datable(revisions@),
{
    let mut i: usize = 0;
    while i < revisions.len()
        invariant
            i <= revisions.len(),
            forall|j: int| 0 <= j < i ==> in_calendar((#[trigger] revisions@[j]).applied_at),
        decreases revisions.len() - i,
    {
        if !has_day(&revisions[i].applied_at) {
            assert(!in_calendar(revisions@[i as int].applied_at));
            return false;
        }
        i += 1;
    }
    true
}

/// One revision as text.
pub fn describe_revision(e: &RevisionEntry) -> (r: String)
    requires
        in_calendar(e.applied_at),
    ensures
        r@ == revision_text(*e),
{
    "r".to_owned().concat(signed_decimal_of(e.revision_num).as_str()).concat(" · ").concat(
        fmt_day(&e.applied_at).as_str(),
    ).concat(" · ").concat(e.reason.as_str()).concat("\n    was: ").concat(
        e.prior_text.as_str(),
    )
}

/// The revisions as texts, or why there are none.
pub open spec fn revision_texts(revisions: Result<Vec<RevisionEntry>, String>) -> Seq<Seq<char>> {
    match revisions {
        Ok(rs) => rs@.map_values(|r: RevisionEntry| revision_text(r)),
        Err(e) => seq!["revisions unavailable: "@ + e@],
    }
}

fn describe_revisions(revisions: &Result<Vec<RevisionEntry>, String>) -> (r: Vec<String>)
    requires
        revisions matches Ok(rs) ==> revisions_datable(rs@),
    ensures
        texts(r@) == revision_texts(*revisions),
{
    let mut out = no_texts();
    match revisions {
        Ok(rs) => {
            let ghost all = rs@.map_values(|r: RevisionEntry| revision_text(r));
            let mut i: usize = 0;
            assert(all.take(0) =~= Seq::empty());
            while i < rs.len()
                invariant
                    i <= rs.len(),
                    all == rs@.map_values(|r: RevisionEntry| revision_text(r)),
                    texts(out@) == all.take(i as int),
                    revisions_datable(rs@),
                decreases rs.len() - i,
            {
                let text = describe_revision(&rs[i]);
                push_text(&mut out, text);
                assert(all.take(i + 1) =~= all.take(i as int).push(all[i as int]));
                i += 1;
            }
            assert(all.take(i as int) =~= all);
        },
        Err(e) => {
            push_text(&mut out, "revisions unavailable: ".to_owned().concat(e.as_str()));
            assert(texts(out@) =~= revision_texts(*revisions));
        },
    }
    out
}

// The whole -------------------------------------------------------------

impl Reads {
    /// Whether the calendar reaches every time that is to be shown.
    pub open spec fn is_datable(self) -> bool {
        &&& self.record matches Ok(Some(m)) ==> in_calendar(m.created_at)
        &&& self.claims matches Ok(cs) ==> claims_datable(cs@)
        &&& self.revisions matches Ok(rs) ==> revisions_datable(rs@)
    }

    /// The inspector of the memory `rid`. A memory whose entity links could
    /// not be read shows none.
    pub open spec fn inspection(self, rid: Seq<char>) -> InspectorView {
        InspectorView {
            rid,
            header: match self.record {
                Ok(Some(m)) => record_header(rid, m),
                Ok(None) => seq![seq![("(record not found)"@, Tone::Dim)]],
                Err(e) => seq![seq![("get failed: "@ + e@, Tone::Dim)]],
            },
            text: match self.record {
                Ok(Some(m)) => m.text@,
                _ => Seq::empty(),
            },
            entities: match self.entities {
                Ok(names) => texts(names@),
                Err(_) => Seq::empty(),
            },
            claims: claim_texts(self.claims),
            revisions: revision_texts(self.revisions),
        }
    }

    /// Whether the calendar reaches every time that is to be shown.
    pub fn can_inspect(&self) -> (r: bool)
        ensures
            r == self.is_datable(),
    {
        if let Ok(Some(m)) = &self.record {
            if !has_day(&m.created_at) {
                return false;
            }
        }
        let claims: bool = match &self.claims {
            Ok(cs) => can_date_claims(cs),
            Err(_) => true,
        };
        let revisions: bool = match &self.revisions {
            Ok(rs) => can_date_revisions(rs),
            Err(_) => true,
        };
        claims && revisions
    }

    /// Makes the inspector of the memory `rid`.
    pub fn inspect(&self, rid: &str) -> (r: Inspector)
        requires
            self.is_datable(),
        ensures
            r@ == self.inspection(rid@),
    {
        let mut text = String::new();
        let mut header = no_lines();
        match &self.record {
            Ok(Some(m)) => {
                header = make_header(rid, m);
                text = m.text.clone();
            },
            Ok(None) => {
                push_line(&mut header, Line::of("(record not found)", Tone::Dim));
            },
            Err(e) => {
                let why = "get failed: ".to_owned().concat(e.as_str());
                push_line(&mut header, Line::of(why.as_str(), Tone::Dim));
            },
        }
        let entities = match &self.entities {
            Ok(names) => copy_texts(names),
            Err(_) => no_texts(),
        };
        let claims = describe_claims(&self.claims);
        let revisions = describe_revisions(&self.revisions);
        let r = Inspector { rid: rid.to_owned(), header, text, entities, claims, revisions };
        assert(r@ =~~= self.inspection(rid@));
        r
    }
}

/// The same texts once more.
pub fn copy_texts(list: &Vec<String>) -> (r: Vec<String>)
    ensures
        texts(r@) == texts(list@),
{
    let mut out = no_texts();
    let mut i: usize = 0;
    assert(texts(list@).take(0) =~= Seq::empty());
    while i < list.len()
        invariant
            i <= list.len(),
            texts(out@) == texts(list@).take(i as int),
        decreases list.len() - i,
    {
        push_text(&mut out, list[i].clone());
        assert(texts(list@).take(i + 1) =~= texts(list@).take(i as int).push(list@[i as int]@));
        i += 1;
    }
    assert(texts(list@).take(i as int) =~= texts(list@));
    out
}

// Laws ------------------------------------------------------------------

/// The header of a memory that was found tells its type, namespace, importance
/// and status, then when it was created, its domain and its source, then its
/// id. Metadata follow exactly where they are neither null nor an empty object.
pub proof fn law_the_header_of_a_memory(reads: Reads, rid: Seq<char>, m: Record)
    requires
        reads.record == Ok::<Option<Record>, String>(Some(m)),
    ensures
        ({
            let h = reads.inspection(rid).header;
            let told = json_text(m.metadata) != "null"@ && json_text(m.metadata) != "{}"@;
            &&& h.len() == if told {
                4int
            } else {
                3
            }
            &&& h[0].len() == 7
            &&& h[0][0] == (m.memory_type@, Tone::Key)
            &&& h[0][1] == (" · "@, Tone::Dim)
            &&& h[0][2] == (m.namespace@, Tone::Plain)
            &&& h[0][3] == (" · importance "@, Tone::Dim)
            &&& h[0][4] == (fixed_text(m.importance, 2), Tone::Plain)
            &&& h[0][5] == (" · "@, Tone::Dim)
            &&& h[0][6] == (m.consolidation_status@, Tone::Plain)
            &&& h[1].len() == 6
            &&& h[1][0] == ("created "@, Tone::Dim)
            &&& h[1][1] == (day_text(m.created_at), Tone::Plain)
            &&& h[1][2] == ("  domain "@, Tone::Dim)
            &&& h[1][3] == (m.domain@, Tone::Plain)
            &&& h[1][4] == ("  source "@, Tone::Dim)
            &&& h[1][5] == (m.source@, Tone::Plain)
            &&& h[2].len() == 1 && h[2][0] == (rid, Tone::Dim)
            &&& told ==> h[3].len() == 2 && h[3][0] == ("metadata "@, Tone::Dim) && h[3][1] == (
                json_text(m.metadata),
                Tone::Plain,
            )
        }),
{
}

/// A memory that was not found, or could not be read, has one line that says
/// so, and no text.
pub proof fn law_the_header_without_a_memory(reads: Reads, rid: Seq<char>)
    requires
        !(reads.record matches Ok(Some(_))),
    ensures
        ({
            let ins = reads.inspection(rid);
            &&& ins.text.len() == 0
            &&& ins.header.len() == 1 && ins.header[0].len() == 1
            &&& ins.header[0][0].1 == Tone::Dim
            &&& ins.header[0][0].0 == match reads.record {
                Err(e) => "get failed: "@ + e@,
                _ => "(record not found)"@,
            }
        }),
{
}

/// The inspector shows the reads of its memory: the text, the linked names in
/// their order, one line for each claim and one text for each revision, or why
/// they could not be read; names that could not be read are left out.
pub proof fn law_the_inspector_shows_the_reads(reads: Reads, rid: Seq<char>)
    ensures
        ({
            let ins = reads.inspection(rid);
            &&& ins.rid == rid
            &&& reads.record matches Ok(Some(m)) ==> ins.text == m.text@
            &&& match reads.entities {
                Ok(names) => ins.entities.len() == names@.len() && forall|i: int|
                    0 <= i < names@.len() ==> #[trigger] ins.entities[i] == names@[i]@,
                Err(_) => ins.entities.len() == 0,
            }
            &&& match reads.claims {
                Ok(claims) => ins.claims.len() == claims@.len() && forall|i: int|
                    0 <= i < claims@.len() ==> #[trigger] ins.claims[i] == claim_text(claims@[i]),
                Err(e) => ins.claims.len() == 1 && ins.claims[0] == "claims unavailable: "@ + e@,
            }
            &&& match reads.revisions {
                Ok(revisions) => ins.revisions.len() == revisions@.len() && forall|i: int|
                    0 <= i < revisions@.len() ==> #[trigger] ins.revisions[i] == revision_text(
                        revisions@[i],
                    ),
                Err(e) => ins.revisions.len() == 1 && ins.revisions[0]
                    == "revisions unavailable: "@ + e@,
            }
        }),
{
}

/// A claim reads from its subject over its relation to its object, with its
/// status, its extractor and its window behind.
pub proof fn law_claims_tell_all_their_parts(c: Claim)
    requires
        c.polarity != -1,
    ensures
        claim_text(c) == c.src@ + " — "@ + c.rel_type@ + " → "@ + c.dst@ + "  ("@
            + c.status_suggestion.word() + ", "@ + c.extractor@ + ")"@ + window_text(
            c.valid_from,
            c.valid_to,
        ),
{
    reveal_strlit(" — ");
    reveal_strlit(" —");
    reveal_strlit(" ");
    reveal_strlit("");
    assert(" —"@ + ""@ + " "@ =~= " — "@);
    assert(claim_text(c) =~= c.src@ + (" —"@ + ""@ + " "@) + c.rel_type@ + " → "@ + c.dst@ + "  ("@
        + c.status_suggestion.word() + ", "@ + c.extractor@ + ")"@ + window_text(
        c.valid_from,
        c.valid_to,
    ));
}

/// A claim that denies reads as the claim that it denies, with NOT behind the
/// dash and nothing else changed.
pub proof fn law_denials_say_not(c: Claim, asserted: Claim)
    requires
        c.polarity == -1,
        asserted == (Claim { polarity: asserted.polarity, ..c }),
        asserted.polarity != -1,
    ensures
        ({
            let at = c.src@.len() + 2;
            let plain = claim_text(asserted);
            claim_text(c) == plain.take(at as int) + " NOT"@ + plain.skip(at as int)
        }),
{
    let at = c.src@.len() + 2;
    let plain = claim_text(asserted);
    reveal_strlit(" —");
    reveal_strlit("");
    let tail = " "@ + c.rel_type@ + " → "@ + c.dst@ + "  ("@ + c.status_suggestion.word() + ", "@
        + c.extractor@ + ")"@ + window_text(c.valid_from, c.valid_to);
    assert(plain =~= c.src@ + " —"@ + tail);
    assert(claim_text(c) =~= c.src@ + " —"@ + " NOT"@ + tail);
    assert(plain.take(at as int) =~= c.src@ + " —"@);
    assert(plain.skip(at as int) =~= tail);
}

/// The window of a claim tells the days between which it holds, as far as they
/// are known; a time that is not finite is not known.
pub proof fn law_windows_tell_known_days(from: Option<Double>, to: Option<Double>)
    ensures
        ({
            let a = from is Some && (from->0).is_finite();
            let b = to is Some && (to->0).is_finite();
            let text = window_text(from, to);
            &&& a && b ==> text == " ["@ + day_text(from->0) + " → "@ + day_text(to->0) + "]"@
            &&& a && !b ==> text == " [from "@ + day_text(from->0) + "]"@
            &&& !a && b ==> text == " [until "@ + day_text(to->0) + "]"@
            &&& !a && !b ==> text.len() == 0
        }),
{
    reveal_strlit("");
}

/// A revision tells its number, day and reason on its first line, and what the
/// text was on the second.
pub proof fn law_revisions_tell_what_was(r: RevisionEntry)
    ensures
        ({
            let head = "r"@ + signed_decimal(r.revision_num as int) + " · "@ + day_text(r.applied_at)
                + " · "@ + r.reason@;
            let text = revision_text(r);
            &&& head.is_prefix_of(text)
            &&& text.skip(head.len() as int) == "\n    was: "@ + r.prior_text@
        }),
{
    let head = "r"@ + signed_decimal(r.revision_num as int) + " · "@ + day_text(r.applied_at)
        + " · "@ + r.reason@;
    let text = revision_text(r);
    assert(text =~= head + ("\n    was: "@ + r.prior_text@));
    assert(text.skip(head.len() as int) =~= "\n    was: "@ + r.prior_text@);
}

/// A memory can be inspected exactly where the calendar reaches the time of its
/// record, the windows of its claims and the times of its revisions.
pub proof fn law_what_can_be_inspected(reads: Reads)
    ensures
        reads.is_datable() <==> {
            &&& reads.record matches Ok(Some(m)) ==> in_calendar(m.created_at)
            &&& reads.claims matches Ok(claims) ==> forall|i: int|
                0 <= i < claims@.len() ==> {
                    &&& (#[trigger] claims@[i]).valid_from matches Some(t) ==> in_calendar(t)
                    &&& claims@[i].valid_to matches Some(t) ==> in_calendar(t)
                }
            &&& reads.revisions matches Ok(revisions) ==> forall|i: int|
                0 <= i < revisions@.len() ==> in_calendar((#[trigger] revisions@[i]).applied_at)
        },
{
    if let Ok(claims) = reads.claims {
        assert forall|i: int| 0 <= i < claims@.len() implies (#[trigger] claims@[i]).is_datable()
            == ((claims@[i].valid_from matches Some(t) ==> in_calendar(t)) && (
        claims@[i].valid_to matches Some(t) ==> in_calendar(t))) by {
        }
    }
}

} // verus!
