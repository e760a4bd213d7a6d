use yantrikdb_explorer::double::Double;
use yantrikdb_explorer::inspect::{
    Claim, ClaimRow, ConflictRow, EntityLink, RevisionRow, Status, YantrikDB,
};
use yantrikdb_explorer::json::{or_null, parse_or_null};

const STATED_CLAIM_EXTRACTOR: &str = "agent_stated";

fn double(x: f64) -> Double {
    Double::from_bits(x.to_bits())
}

fn number(d: Double) -> f64 {
    f64::from_bits(d.bits)
}

fn empty() -> YantrikDB {
    YantrikDB {
        claims: Vec::new(),
        conflicts: Vec::new(),
        record_revisions: Vec::new(),
        entity_links: Vec::new(),
    }
}

fn revision(rid: &str, num: i64, text: &str, metadata: &str, importance: f64, reason: &str) -> RevisionRow {
    RevisionRow {
        revision_id: format!("{rid}-{num}"),
        rid: rid.to_string(),
        revision_num: num,
        prior_text: Ok(text.to_string()),
        prior_metadata: Ok(metadata.to_string()),
        prior_importance: double(importance),
        prior_valence: double(0.0),
        reason: reason.to_string(),
        applied_at: double(1_789_300_000.0 + num as f64),
        origin_actor: "user".to_string(),
    }
}

fn claim(id: &str, rid: &str, src: &str, rel: &str, dst: &str) -> ClaimRow {
    ClaimRow {
        claim_id: id.to_string(),
        src: src.to_string(),
        dst: dst.to_string(),
        rel_type: rel.to_string(),
        weight: double(1.0),
        created_at: double(100.0),
        polarity: 1,
        modality: "asserted".to_string(),
        valid_from: None,
        valid_to: None,
        extractor: STATED_CLAIM_EXTRACTOR.to_string(),
        confidence_band: "high".to_string(),
        source_memory_rid: Some(rid.to_string()),
        namespace: "default".to_string(),
        grounding: 1,
        tombstoned: false,
    }
}

fn conflict(a: Option<&str>, b: Option<&str>, status: &str) -> ConflictRow {
    ConflictRow {
        memory_a: a.map(String::from),
        memory_b: b.map(String::from),
        status: status.to_string(),
    }
}

// Revisions

#[test]
fn revision_history_lists_prior_states_oldest_first() {
    let mut db = empty();
    let rid = "m1".to_string();
    assert!(db.revision_history(&rid).unwrap().is_empty());

    db.record_revisions
        .push(revision(&rid, 2, "original text", "{\"k\":\"v\"}", 0.9, "second"));
    db.record_revisions
        .push(revision(&rid, 1, "original text", "{\"k\":\"v\"}", 0.5, "first"));

    let revs = db.revision_history(&rid).unwrap();
    assert_eq!(revs.len(), 2);
    assert_eq!(revs[0].revision_num, 1);
    assert_eq!(revs[0].reason, "first");
    assert_eq!(revs[0].rid, rid);
    assert_eq!(revs[0].prior_text, "original text");
    assert!(
        (number(revs[0].prior_importance) - 0.5).abs() < 1e-9,
        "revision 1 archives the ORIGINAL importance"
    );
    assert_eq!(
        revs[0].prior_metadata["k"], "v",
        "prior metadata is parsed, not a string"
    );
    assert_eq!(revs[1].revision_num, 2);
    assert_eq!(revs[1].reason, "second");
    assert!(
        (number(revs[1].prior_importance) - 0.9).abs() < 1e-9,
        "revision 2 archives the state revision 1 produced"
    );
    assert!(number(revs[0].applied_at) <= number(revs[1].applied_at));
    assert!(!revs[0].revision_id.is_empty());
}

#[test]
fn revision_history_is_empty_for_unknown_rids() {
    let mut db = empty();
    assert!(db.revision_history("no-such-rid").unwrap().is_empty());
    db.record_revisions.push(revision("m1", 1, "t", "{}", 0.5, "r"));
    assert!(db.revision_history("no-such-rid").unwrap().is_empty());
}

#[test]
fn revision_history_decrypts_prior_state_on_encrypted_stores() {
    let mut db = empty();
    let rid = "m1".to_string();
    // The archived row is ciphertext; what is handed back must be plaintext.
    let stored = seal("secret original");
    let stored_metadata = seal("{\"topic\":\"enc\"}");
    assert_ne!(
        stored, "secret original",
        "revision rows are archived encrypted"
    );
    let mut row = revision(&rid, 1, "", "", 0.5, "bump");
    row.prior_text = unseal(&stored);
    row.prior_metadata = unseal(&stored_metadata);
    db.record_revisions.push(row);

    let revs = db.revision_history(&rid).unwrap();
    assert_eq!(revs.len(), 1);
    assert_eq!(revs[0].prior_text, "secret original");
    assert_eq!(revs[0].prior_metadata["topic"], "enc");

    // Without the key there is no history, rather than ciphertext or null.
    db.record_revisions[0].prior_metadata = unseal("plain");
    assert_eq!(db.revision_history(&rid).err().unwrap(), "not sealed");
}

/// A stand-in for the cipher of a store.
fn seal(text: &str) -> String {
    let shifted = text.bytes().map(|b| format!("{:02x}", b ^ 0x5a)).collect::<Vec<_>>();
    format!("sealed:{}", shifted.concat())
}

fn unseal(stored: &str) -> Result<String, String> {
    let hex = stored.strip_prefix("sealed:").ok_or("not sealed")?;
    let bytes = (0..hex.len() / 2)
        .map(|i| u8::from_str_radix(&hex[2 * i..2 * i + 2], 16).unwrap() ^ 0x5a)
        .collect();
    Ok(String::from_utf8(bytes).unwrap())
}

#[test]
fn a_further_correction_extends_the_history() {
    let mut db = empty();
    db.record_revisions = vec![
        revision("m1", 2, "second text", "{}", 0.6, "second"),
        revision("m1", 1, "first text", "{}", 0.5, "first"),
    ];
    let before = db.revision_history("m1").unwrap();
    let other = db.revision_history("m2").unwrap();
    db.record_revisions
        .push(revision("m1", 3, "third text", "{\"a\":1}", 0.7, "third"));
    let after = db.revision_history("m1").unwrap();
    assert_eq!(after.len(), before.len() + 1);
    for (a, b) in before.iter().zip(&after) {
        assert_eq!((&a.prior_text, &a.reason, a.revision_num), (&b.prior_text, &b.reason, b.revision_num));
    }
    let last = after.last().unwrap();
    assert_eq!(last.revision_num, after.len() as i64);
    assert_eq!(last.prior_text, "third text");
    assert_eq!(last.prior_metadata["a"], 1);
    assert_eq!(last.prior_importance, double(0.7));
    assert_eq!(last.reason, "third");
    assert!(other.is_empty() && db.revision_history("m2").unwrap().is_empty());
}

#[test]
fn revision_history_reports_the_first_state_that_cannot_be_decrypted() {
    let mut db = empty();
    let mut third = revision("m1", 3, "t", "{}", 0.5, "r");
    third.prior_text = Err("third".to_string());
    let mut second = revision("m1", 2, "t", "{}", 0.5, "r");
    second.prior_metadata = Err("second".to_string());
    let mut other = revision("m2", 1, "t", "{}", 0.5, "r");
    other.prior_text = Err("other".to_string());
    db.record_revisions = vec![third, second, other, revision("m1", 1, "t", "{}", 0.5, "r")];
    assert_eq!(db.revision_history("m1").err().unwrap(), "second");
    db.record_revisions[1].prior_text = Err("text first".to_string());
    assert_eq!(db.revision_history("m1").err().unwrap(), "text first");
}

#[test]
fn metadata_that_is_not_json_is_null() {
    let mut db = empty();
    db.record_revisions.push(revision("m1", 1, "t", "{not json", 0.5, "r"));
    assert!(db.revision_history("m1").unwrap()[0].prior_metadata.is_null());
    assert!(parse_or_null("null").is_null());
    assert!(or_null(None).is_null());
    assert_eq!(or_null(Some(serde_json::Value::Bool(true))), true);
    assert_eq!(parse_or_null(" [1, \"x\"] ").to_string(), "[1,\"x\"]");
}

// Claims

#[test]
fn claims_for_memory_returns_the_memory_s_stated_claims_with_status() {
    let rid = "m1".to_string();
    let other = "m2".to_string();
    let mut db = empty();
    db.claims = vec![
        claim("c1", &rid, "Pranab", "prefers", "Vim"),
        claim("c2", &rid, "Pranab", "reviews with", "Maria"),
    ];
    let now = double(1_789_300_000.0);

    let claims = db.claims_for_memory(&rid, &now);
    assert_eq!(claims.len(), 2);
    for c in &claims {
        assert_eq!(c.source_memory_rid, Some(rid.clone()));
        assert_eq!(c.status_suggestion.as_str(), "active");
        assert_eq!(c.extractor, STATED_CLAIM_EXTRACTOR);
        assert_eq!(c.polarity, 1);
    }
    let dsts: std::collections::HashSet<String> = claims.iter().map(|c| c.dst.clone()).collect();
    assert!(dsts.contains("Vim") && dsts.contains("Maria"));

    // Scoped to the memory: another memory sees none of them.
    assert!(db.claims_for_memory(&other, &now).is_empty());
    assert!(db.claims_for_memory("no-such-rid", &now).is_empty());
}

#[test]
fn claims_for_memory_marks_a_denied_claim_negative() {
    let rid = "m1";
    let mut denied = claim("c1", rid, "Pranab", "use", "Emacs");
    denied.polarity = -1;
    let mut db = empty();
    db.claims = vec![denied];
    let claims = db.claims_for_memory(rid, &double(10.0));
    assert_eq!(claims.len(), 1);
    assert_eq!(claims[0].polarity, -1);
    assert_eq!(claims[0].status_suggestion.as_str(), "negative");
}

#[test]
fn a_denied_claim_stays_negative_once_it_has_ended() {
    let mut denied = claim("c1", "m1", "Pranab", "use", "Emacs");
    denied.polarity = -1;
    denied.valid_to = Some(double(1.0));
    let mut db = empty();
    db.claims = vec![denied];
    db.conflicts.push(conflict(Some("c1"), None, "open"));
    assert_eq!(db.claims_for_memory("m1", &double(10.0))[0].status_suggestion, Status::Negative);
}

#[test]
fn claims_come_newest_first_and_then_by_id() {
    let mut db = empty();
    for (id, at) in [("b", 5.0), ("c", 9.0), ("a", 5.0), ("d", 1.0)] {
        let mut c = claim(id, "m1", "s", "r", "d");
        c.created_at = double(at);
        db.claims.push(c);
    }
    db.claims[3].tombstoned = true;
    let mut unbacked = claim("e", "m1", "s", "r", "d");
    unbacked.source_memory_rid = None;
    db.claims.push(unbacked);
    let ids: Vec<String> = db
        .claims_for_memory("m1", &double(0.0))
        .into_iter()
        .map(|c| c.claim_id)
        .collect();
    assert_eq!(ids, ["c", "a", "b"]);
}

#[test]
fn claims_have_the_status_of_their_time_and_conflicts() {
    let mut db = empty();
    db.claims = vec![claim("c1", "m1", "s", "r", "d")];
    let status = |db: &YantrikDB, now: f64| db.claims_for_memory("m1", &double(now))[0].status_suggestion;
    assert_eq!(status(&db, 5.0), Status::Active);
    db.conflicts.push(conflict(Some("c1"), Some("x"), "resolved"));
    assert_eq!(status(&db, 5.0), Status::Active);
    db.conflicts.push(conflict(None, Some("c1"), "open"));
    assert_eq!(status(&db, 5.0), Status::Conflicted);
    db.conflicts = vec![conflict(Some("m1"), None, "open")];
    assert_eq!(status(&db, 5.0), Status::Conflicted);
    assert_eq!(status(&db, 5.0).as_str(), "conflicted");
    db.claims[0].valid_to = Some(double(5.0));
    assert_eq!(status(&db, 5.0).as_str(), "superseded");
    assert_eq!(status(&db, 5.5).as_str(), "historical");
    assert_eq!(status(&db, 500.0), Status::Historical);
}

#[test]
fn corrections_leave_claims_alone() {
    let mut db = empty();
    let mut ending = claim("c2", "m1", "s", "r", "d");
    ending.valid_to = Some(double(1e9));
    db.claims = vec![ending, claim("c1", "m1", "s", "r", "d")];
    let before = db.claims_for_memory("m1", &double(1.0));
    db.record_revisions.push(revision("m1", 1, "t", "{}", 0.5, "r"));
    let claims = db.claims_for_memory("m1", &double(1e10));
    let ids = |list: &[Claim]| list.iter().map(|c| c.claim_id.clone()).collect::<Vec<_>>();
    assert_eq!(ids(&claims), ids(&before));
    assert_eq!(before[0].status_suggestion, Status::Active);
    assert_eq!(claims[0].status_suggestion, Status::Active);
    assert!(claims[0].valid_to.is_none());
    assert_eq!(before[1].status_suggestion, Status::Superseded);
    assert_eq!(claims[1].status_suggestion, Status::Historical);
}

// Entities

/// Links a memory to an entity; a link is held once.
fn link(db: &mut YantrikDB, rid: &str, name: &str) {
    let held = |l: &EntityLink| l.memory_rid == rid && l.entity_name == name;
    if !db.entity_links.iter().any(held) {
        db.entity_links.push(EntityLink {
            memory_rid: rid.to_string(),
            entity_name: name.to_string(),
        });
    }
}

#[test]
fn memory_entities_lists_linked_names_sorted() {
    let mut db = empty();
    let rid = "m1".to_string();
    assert!(db.memory_entities(&rid).is_empty());
    link(&mut db, &rid, "Zeta Corp");
    link(&mut db, &rid, "Acme");
    link(&mut db, &rid, "Acme"); // idempotent
    assert_eq!(db.memory_entities(&rid), vec!["Acme", "Zeta Corp"]);
    assert!(db.memory_entities("no-such-rid").is_empty());
}

#[test]
fn names_sort_by_their_bytes() {
    let names = ["b", "a", "B", "äa", "z", "", "a b", "aa", "\u{10000}", "\u{ffff}"];
    let mut db = empty();
    for name in names {
        db.entity_links.push(EntityLink {
            memory_rid: "m".to_string(),
            entity_name: name.to_string(),
        });
    }
    let mut expected = names.to_vec();
    expected.sort_by(|a, b| a.as_bytes().cmp(b.as_bytes()));
    assert_eq!(db.memory_entities("m"), expected);
}
