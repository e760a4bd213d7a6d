use yantrikdb_explorer::double::Double;
use yantrikdb_explorer::draw::{
    can_draw_memories, can_title_inspector, draw_footer, draw_inspector, draw_memories,
    draw_namespaces, draw_tasks, draw_title, has_focus, title_inspector, title_memories,
    title_tasks,
};
use yantrikdb_explorer::embedder::SearchState;
use yantrikdb_explorer::explorer::{
    next_pane, App, Hit, Key, KeyCode, Listed, Pane, Pending, Request, TaskRow,
};
use yantrikdb_explorer::inspect::{ClaimRow, EntityLink, RevisionRow, YantrikDB};
use yantrikdb_explorer::inspector::{Reads, Record};
use yantrikdb_explorer::json::parse_or_null;
use yantrikdb_explorer::lifecycle::{Action, Snapshots, Which};
use yantrikdb_explorer::namespaces::{NamespaceRow, NamespaceRows};
use yantrikdb_explorer::screen::{Line, Tone};
use yantrikdb_explorer::snapshot::SnapshotGuard;

const NOW: f64 = 1_789_300_000.0;

fn double(x: f64) -> Double {
    Double::from_bits(x.to_bits())
}

struct Memory {
    rid: String,
    namespace: String,
    text: String,
    metadata: String,
    created_at: f64,
}

/// A store that answers the reads of an explorer.
struct Store {
    memories: Vec<Memory>,
    tasks: Vec<(String, String, String)>,
    tables: YantrikDB,
    search: bool,
    failing: bool,
    embed_fails: bool,
    requests: Vec<String>,
    life: Snapshots,
    /// The directories that exist, and those of the two snapshots.
    dirs: Vec<Vec<String>>,
    current: Option<SnapshotGuard>,
    fresh: Option<SnapshotGuard>,
}

impl Store {
    fn new() -> Store {
        Store {
            memories: Vec::new(),
            tasks: Vec::new(),
            tables: YantrikDB {
                claims: Vec::new(),
                conflicts: Vec::new(),
                record_revisions: Vec::new(),
                entity_links: Vec::new(),
            },
            search: true,
            failing: false,
            embed_fails: false,
            requests: Vec::new(),
            life: Snapshots::none(),
            dirs: Vec::new(),
            current: None,
            fresh: None,
        }
    }

    /// Makes the steps that are due for the snapshots.
    fn settle(&mut self) -> Result<(), String> {
        while self.life.action() != Action::Rest {
            let mut outcome = Ok(());
            match self.life.action() {
                Action::MakeDir => {
                    let guard = SnapshotGuard::draw(1);
                    self.dirs.push(guard.dir.clone());
                    self.fresh = Some(guard);
                }
                Action::Copy if self.failing => outcome = Err("no such file".to_string()),
                Action::RemoveDir(which) => {
                    let guard = match which {
                        Which::Current => self.current.take(),
                        Which::Fresh => self.fresh.take(),
                    };
                    self.dirs.retain(|dir| *dir != guard.as_ref().unwrap().dir);
                }
                _ => {}
            }
            self.life.done(outcome);
        }
        if self.fresh.is_some() {
            self.current = self.fresh.take();
        }
        self.life.report.clone()
    }

    fn snapshot(&mut self) -> Result<(), String> {
        self.life.open();
        self.settle()
    }

    fn close(&mut self) -> Result<(), String> {
        self.life.close();
        self.settle()
    }

    fn record(&mut self, namespace: &str, text: &str) -> String {
        let rid = format!("{:08}-rid", self.memories.len());
        self.memories.push(Memory {
            rid: rid.clone(),
            namespace: namespace.to_string(),
            text: text.to_string(),
            metadata: "{}".to_string(),
            created_at: NOW + self.memories.len() as f64,
        });
        rid
    }

    fn task_add(&mut self, namespace: &str, title: &str, priority: &str) {
        self.tasks
            .push((namespace.to_string(), title.to_string(), priority.to_string()));
    }

    fn in_scope(&self, namespace: &Option<String>) -> Vec<&Memory> {
        let mut found: Vec<&Memory> = self
            .memories
            .iter()
            .filter(|m| namespace.as_ref().map_or(true, |n| *n == m.namespace))
            .collect();
        found.reverse();
        found
    }

    fn state(&self) -> SearchState {
        if self.search {
            SearchState::Ready("embedder bundled · 64-d · verified".to_string())
        } else {
            SearchState::Disabled("search disabled: no model".to_string())
        }
    }

    fn namespace_rows(&self) -> NamespaceRows {
        NamespaceRows {
            memories: self
                .memories
                .iter()
                .map(|m| NamespaceRow {
                    namespace: m.namespace.clone(),
                    status: Some("active".to_string()),
                    memories: 1,
                })
                .collect(),
            tasks: Some(self.tasks.iter().map(|t| t.0.clone()).collect()),
        }
    }

    fn reads(&self, rid: &str) -> Reads {
        let record = self.memories.iter().find(|m| m.rid == rid).map(|m| Record {
            memory_type: "semantic".to_string(),
            namespace: m.namespace.clone(),
            importance: double(0.6),
            consolidation_status: "active".to_string(),
            created_at: double(m.created_at),
            domain: "general".to_string(),
            source: "user".to_string(),
            metadata: parse_or_null(&m.metadata),
            text: m.text.clone(),
        });
        Reads {
            record: Ok(record),
            entities: Ok(self.tables.memory_entities(rid)),
            claims: Ok(self.tables.claims_for_memory(rid, &double(NOW))),
            revisions: self.tables.revision_history(rid),
        }
    }

    fn open(&mut self) -> App {
        self.snapshot().unwrap();
        let mut app = App::open("source.db", double(NOW), self.state(), Ok(self.namespace_rows())).unwrap();
        self.answer(&mut app);
        app
    }

    /// Answers until the explorer waits for a key.
    fn answer(&mut self, app: &mut App) {
        loop {
            match app.request() {
                Request::Key => return,
                Request::Snapshot => {
                    self.requests.push("snapshot".to_string());
                    let taken = self.snapshot();
                    app.on_snapshot(taken.map(|_| (double(NOW + 1.0), self.state())));
                }
                Request::Namespaces => {
                    self.requests.push("namespaces".to_string());
                    app.on_namespaces(Ok(self.namespace_rows()));
                }
                Request::List { limit, offset, namespace, sort_by } => {
                    self.requests.push(format!("list {limit} {offset} {namespace:?} {sort_by}"));
                    let read = if self.failing {
                        Err("disk".to_string())
                    } else {
                        let found = self.in_scope(&namespace);
                        let page = found.iter().skip(offset).take(limit).map(|m| listed(m)).collect();
                        Ok((page, found.len()))
                    };
                    app.on_page(read);
                }
                Request::Embed { text } => {
                    self.requests.push(format!("embed {text}"));
                    app.on_embedded(if self.embed_fails { Err("model".to_string()) } else { Ok(()) });
                }
                Request::Recall { query, top_k, namespace, skip_reinforce, expand_entities } => {
                    self.requests.push(format!("recall {query} {top_k} {namespace:?}"));
                    assert!(skip_reinforce && !expand_entities);
                    let read = if self.failing {
                        Err("index".to_string())
                    } else {
                        let mut hits: Vec<Hit> = Vec::new();
                        for m in self.in_scope(&namespace) {
                            let words = query.split(' ').filter(|w| m.text.to_lowercase().contains(*w)).count();
                            hits.push(Hit { memory: listed(m), score: double(words as f64 / 10.0) });
                        }
                        hits.sort_by(|a, b| b.score.bits.cmp(&a.score.bits));
                        hits.truncate(top_k);
                        Ok(hits)
                    };
                    app.on_hits(read);
                }
                Request::Inspect { rid } => {
                    let reads = self.reads(&rid);
                    assert!(reads.can_inspect());
                    app.on_inspection(&reads);
                }
                Request::Tasks { namespace } => {
                    self.requests.push(format!("tasks {namespace}"));
                    let read = if self.failing {
                        Err("locked".to_string())
                    } else {
                        Ok(self
                            .tasks
                            .iter()
                            .filter(|t| t.0 == namespace)
                            .map(|t| TaskRow {
                                status: "open".to_string(),
                                title: t.1.clone(),
                                priority: t.2.clone(),
                            })
                            .collect())
                    };
                    app.on_tasks(&read);
                }
            }
        }
    }

    fn press(&mut self, app: &mut App, code: KeyCode) -> bool {
        let quit = app.on_key(Key { code, control: false, pressed: true });
        self.answer(app);
        quit
    }

    fn type_text(&mut self, app: &mut App, text: &str) {
        for c in text.chars() {
            assert!(!self.press(app, KeyCode::Char(c)));
        }
    }
}

fn listed(m: &Memory) -> Listed {
    Listed {
        rid: m.rid.clone(),
        text: m.text.clone(),
        memory_type: "semantic".to_string(),
        importance: double(0.6),
        created_at: double(m.created_at),
    }
}

fn build_source() -> (Store, String) {
    let mut store = Store::new();
    let dana = store.record("work", "Dana Okafor leads the Data Platform team at Northwind Analytics.");
    store.record("work", "Helios is the nightly feature pipeline at Northwind Analytics.");
    store.record("personal", "Ari Vasquez lives in Lisbon and cycles to the office.");
    store.tables.claims.push(ClaimRow {
        claim_id: "c1".to_string(),
        src: "Dana Okafor".to_string(),
        dst: "Data Platform team".to_string(),
        rel_type: "leads".to_string(),
        weight: double(1.0),
        created_at: double(NOW),
        polarity: 1,
        modality: "asserted".to_string(),
        valid_from: None,
        valid_to: None,
        extractor: "agent_stated".to_string(),
        confidence_band: "high".to_string(),
        source_memory_rid: Some(dana.clone()),
        namespace: "work".to_string(),
        grounding: 1,
        tombstoned: false,
    });
    store.tables.record_revisions.push(RevisionRow {
        revision_id: "r1".to_string(),
        rid: dana.clone(),
        revision_num: 1,
        prior_text: Ok("Dana Okafor leads the Data Platform team at Northwind Analytics.".to_string()),
        prior_metadata: Ok("{}".to_string()),
        prior_importance: double(0.6),
        prior_valence: double(0.0),
        reason: "importance bump".to_string(),
        applied_at: double(NOW),
        origin_actor: "user".to_string(),
    });
    store.tables.entity_links.push(EntityLink {
        memory_rid: dana.clone(),
        entity_name: "Northwind Analytics".to_string(),
    });
    store.task_add("work", "Ship the atlas TUI", "high");
    (store, dana)
}

fn seeded() -> (App, String, Store) {
    let (mut store, dana) = build_source();
    (store.open(), dana, store)
}

fn text_of(line: &Line) -> String {
    line.spans.iter().map(|s| s.text.as_str()).collect()
}

fn texts_of(lines: &[Line]) -> Vec<String> {
    lines.iter().map(text_of).collect()
}

#[test]
fn app_lists_namespaces_memories_and_inspects_without_a_terminal() {
    let (mut app, dana, mut store) = seeded();
    assert_ne!(
        store.current.as_ref().unwrap().db_path(),
        ["source.db"],
        "the engine runs on a private copy"
    );
    assert!(matches!(app.search_state, SearchState::Ready(_)), "{}", app.header_note());
    let names: Vec<&str> = app.namespaces.iter().map(|(n, _)| n.as_str()).collect();
    assert_eq!(names, vec!["(all)", "personal", "work"]);
    assert_eq!(app.namespaces[0].1, 3);
    assert_eq!(app.memories.len(), 3, "every namespace at start");

    // Select "work" in the namespace pane and open it.
    app.pane = Pane::Namespaces;
    app.move_selection(1);
    app.move_selection(1);
    app.activate();
    store.answer(&mut app);
    assert_eq!(app.pane, Pane::Memories);
    assert_eq!(app.scope.as_deref(), Some("work"));
    assert_eq!(app.memories.len(), 2);
    assert!(
        app.tasks.iter().any(|t| t.contains("Ship the atlas TUI")),
        "{:?}",
        app.tasks
    );

    // Inspect the corrected memory.
    let i = app.memories.iter().position(|m| m.rid == dana).unwrap();
    app.mem_selected = Some(i);
    app.open_selected();
    store.answer(&mut app);
    let ins = app.inspector.as_ref().unwrap();
    assert!(ins.text.contains("Dana Okafor"));
    assert!(
        ins.entities.iter().any(|e| e == "Northwind Analytics"),
        "{:?}",
        ins.entities
    );
    assert!(
        ins.claims
            .iter()
            .any(|c| c.contains("leads") && c.contains("Data Platform team")),
        "{:?}",
        ins.claims
    );
    assert_eq!(ins.revisions.len(), 1);
    assert!(ins.revisions[0].contains("importance bump"));
    assert!(ins.header.len() >= 3);
}

#[test]
fn search_returns_scored_hits_and_clearing_restores_the_listing() {
    let (mut app, dana, mut store) = seeded();
    app.query = "who leads the data platform team".into();
    app.search();
    store.answer(&mut app);
    assert!(app.active_query.is_some(), "{}", app.status);
    assert!(!app.memories.is_empty());
    assert!(app.memories.iter().all(|m| m.score.is_some()));
    assert!(
        app.memories.iter().take(2).any(|m| m.rid == dana),
        "Dana in the top two"
    );
    assert!(app.inspector.is_some(), "the top hit is opened");

    app.query.clear();
    app.active_query = None;
    app.load_page(0);
    store.answer(&mut app);
    assert!(app.memories.iter().all(|m| m.score.is_none()));
    assert_eq!(app.memories.len(), 3);
}

#[test]
fn snapshot_with_an_open_writer_is_a_moment_in_time_and_the_writer_continues() {
    let mut store = Store::new();
    for i in 0..12 {
        store.record("work", &format!("Nightly run {i} completed with no failures."));
    }
    let mut app = store.open();
    assert_eq!(app.total, 12);
    for i in 12..18 {
        store.record("ops", &format!("Backup {i} rotated the logs."));
    }
    assert_eq!(app.total, 12, "a snapshot does not move");
    app.refresh();
    store.answer(&mut app);
    assert_eq!(app.total, 18, "refresh takes a new snapshot");
    assert!(app.namespaces.iter().any(|(n, _)| n == "ops"));
    store.record("work", "The writer is undisturbed by the explorer.");
}

#[test]
fn refresh_keeps_the_scope_by_name_and_lists_new_and_task_only_namespaces() {
    let (mut app, _, mut store) = seeded();
    let work = app.namespaces.iter().position(|(n, _)| n == "work").unwrap();
    app.pane = Pane::Namespaces;
    app.ns_selected = Some(work);
    app.activate();
    store.answer(&mut app);
    assert_eq!(app.scope.as_deref(), Some("work"));
    assert_eq!(app.memories.len(), 2);

    // Meanwhile a writer adds a namespace that sorts BEFORE "work" and a
    // task-only namespace.
    store.record("aaa", "A new namespace appears.");
    store.task_add("planning", "Task-only namespace", "low");

    let first_dir = store.current.as_ref().unwrap().dir.clone();
    assert!(store.dirs.contains(&first_dir));
    app.refresh();
    store.answer(&mut app);
    assert!(
        !store.dirs.contains(&first_dir),
        "the previous snapshot directory is removed on refresh"
    );
    assert_eq!(store.dirs, [store.current.as_ref().unwrap().dir.clone()]);
    assert_eq!(
        app.scope.as_deref(),
        Some("work"),
        "scope kept by name, not by index"
    );
    assert_eq!(app.namespaces[app.ns_selected.unwrap()].0, "work");
    assert_eq!(app.memories.len(), 2);
    assert!(
        app.namespaces.iter().any(|(n, c)| n == "aaa" && *c == 1),
        "{:?}",
        app.namespaces
    );
    assert!(
        app.namespaces.iter().any(|(n, c)| n == "planning" && *c == 0),
        "{:?}",
        app.namespaces
    );
}

#[test]
fn closing_removes_the_snapshot_directory() {
    let (_, _, mut store) = seeded();
    let guard = store.current.as_ref().unwrap();
    let dir = guard.dir.clone();
    let mut file = dir.clone();
    file.push("snapshot.db".to_string());
    assert_eq!(guard.db_path(), file);
    assert!(store.dirs.contains(&dir));
    store.close().unwrap();
    assert!(!store.dirs.contains(&dir), "snapshot directory removed on close");
    assert!(store.dirs.is_empty());
}

#[test]
fn a_failed_refresh_keeps_the_snapshot_and_leaves_no_other() {
    let (mut app, _, mut store) = seeded();
    let dirs = store.dirs.clone();
    store.failing = true;
    store.press(&mut app, KeyCode::Char('r'));
    assert_eq!(app.status, "refresh failed: no such file");
    assert_eq!(store.dirs, dirs);
    assert_eq!(app.memories.len(), 3);
}

#[test]
fn a_scope_that_vanished_falls_back_to_all() {
    let (mut app, _, mut store) = seeded();
    app.pane = Pane::Namespaces;
    app.move_selection(1);
    store.press(&mut app, KeyCode::Enter);
    assert_eq!(app.scope.as_deref(), Some("personal"));
    store.memories.retain(|m| m.namespace != "personal");
    store.press(&mut app, KeyCode::Char('r'));
    assert_eq!(app.scope, None);
    assert_eq!(app.ns_selected, Some(0));
    assert_eq!(app.total, 2);
    assert!(app.tasks.is_empty());
}

#[test]
fn panes_form_a_ring() {
    for p in [Pane::Namespaces, Pane::Memories, Pane::Inspector] {
        assert_eq!(next_pane(next_pane(p, true), false), p);
        assert_eq!(next_pane(next_pane(next_pane(p, true), true), true), p);
    }
    assert_eq!(next_pane(Pane::Namespaces, true), Pane::Memories);
    assert_eq!(next_pane(Pane::Namespaces, false), Pane::Inspector);
    let (mut app, _, mut store) = seeded();
    store.press(&mut app, KeyCode::Tab);
    assert_eq!(app.pane, Pane::Inspector);
    store.press(&mut app, KeyCode::BackTab);
    assert_eq!(app.pane, Pane::Memories);
    assert!(has_focus(&app, Pane::Memories) && !has_focus(&app, Pane::Inspector));
}

#[test]
fn a_query_is_typed_and_searched() {
    let (mut app, _, mut store) = seeded();
    store.press(&mut app, KeyCode::Char('/'));
    assert!(app.typing);
    store.type_text(&mut app, " qhelios x");
    store.press(&mut app, KeyCode::Backspace);
    assert_eq!(title_memories(&app), " search:  qhelios ▏ ");
    app.on_key(Key { code: KeyCode::Char('c'), control: true, pressed: true });
    assert_eq!(app.query, " qhelios ");
    store.requests.clear();
    store.press(&mut app, KeyCode::Enter);
    assert_eq!(store.requests, ["embed qhelios", "recall qhelios 50 None"]);
    assert_eq!(app.status, "3 hits for \"qhelios\" (Esc clears)");
    assert_eq!(title_memories(&app), " search: qhelios ");
    store.press(&mut app, KeyCode::Esc);
    assert_eq!(app.query, "");
    assert_eq!(app.active_query, None);
    assert_eq!(app.status, "3 memories · page 1/1");
    assert_eq!(title_memories(&app), " memories · newest first ");
    // A second Esc has nothing to clear.
    store.requests.clear();
    store.press(&mut app, KeyCode::Esc);
    assert!(store.requests.is_empty());
}

#[test]
fn a_blank_query_lists_the_first_page() {
    let (mut app, _, mut store) = seeded();
    store.press(&mut app, KeyCode::Char('/'));
    store.type_text(&mut app, "  ");
    store.requests.clear();
    store.press(&mut app, KeyCode::Enter);
    assert_eq!(store.requests, ["list 200 0 None created_at"]);
}

#[test]
fn a_disabled_search_says_why() {
    let (mut store, _) = build_source();
    store.search = false;
    let mut app = store.open();
    store.press(&mut app, KeyCode::Char('/'));
    store.type_text(&mut app, "helios");
    store.requests.clear();
    store.press(&mut app, KeyCode::Enter);
    assert!(store.requests.is_empty());
    assert_eq!(app.status, "search disabled: no model");
    assert_eq!(app.query, "");
    assert_eq!(app.memories.len(), 3);
}

#[test]
fn failures_stay_on_the_status_line() {
    let (mut app, _, mut store) = seeded();
    app.query = "helios".to_string();
    store.embed_fails = true;
    app.search();
    store.answer(&mut app);
    assert_eq!(app.status, "embed failed: model");
    store.embed_fails = false;
    store.failing = true;
    app.search();
    store.answer(&mut app);
    assert_eq!(app.status, "search failed: index");
    app.load_page(0);
    store.answer(&mut app);
    assert_eq!(app.status, "list failed: disk");
    assert_eq!(app.memories.len(), 3);
    store.press(&mut app, KeyCode::Char('r'));
    assert_eq!(app.status, "refresh failed: no such file");
    app.pane = Pane::Namespaces;
    app.ns_selected = Some(2);
    store.press(&mut app, KeyCode::Enter);
    assert_eq!(app.tasks, ["tasks unavailable: locked"]);
    let unread = App::open("s", double(0.0), store.state(), Err("no table".to_string()));
    assert_eq!(unread.err().unwrap(), "no table");
}

#[test]
fn failed_namespaces_are_reported_and_the_list_is_kept() {
    let (mut app, _, mut store) = seeded();
    app.refresh();
    app.on_snapshot(Ok((double(NOW), store.state())));
    app.on_namespaces(Err("locked".to_string()));
    assert_eq!(app.status, "refresh failed: locked");
    assert_eq!(app.namespaces.len(), 3);
    assert_eq!(app.pending, Pending::Page(0));
    store.answer(&mut app);
    assert_eq!(app.status, "3 memories · page 1/1");
}

#[test]
fn pages_stay_in_range() {
    let mut store = Store::new();
    for i in 0..401 {
        store.record("work", &format!("Row {i}."));
    }
    let mut app = store.open();
    assert_eq!(app.status, "401 memories · page 1/3");
    store.press(&mut app, KeyCode::Char('p'));
    assert_eq!(app.page, 0);
    store.press(&mut app, KeyCode::Char('n'));
    store.press(&mut app, KeyCode::Char('n'));
    assert_eq!((app.page, app.memories.len()), (2, 1));
    store.press(&mut app, KeyCode::Char('n'));
    assert_eq!(app.page, 2);
    store.press(&mut app, KeyCode::Char('p'));
    assert_eq!(app.status, "401 memories · page 2/3");
    assert_eq!(app.memories.len(), 200);
    store.press(&mut app, KeyCode::Char('n'));
    store.memories.truncate(10);
    store.press(&mut app, KeyCode::Char('r'));
    assert_eq!((app.page, app.memories.len()), (2, 0));
    assert_eq!(app.mem_selected, None);
    assert!(app.inspector.is_none());
    store.press(&mut app, KeyCode::Char('r'));
    assert_eq!((app.page, app.memories.len()), (0, 10));
}

#[test]
fn selections_stay_in_range_and_the_inspector_follows() {
    let (mut app, _, mut store) = seeded();
    assert_eq!(app.inspector.as_ref().unwrap().rid, app.memories[0].rid);
    store.press(&mut app, KeyCode::Up);
    assert_eq!(app.mem_selected, Some(0));
    for _ in 0..5 {
        store.press(&mut app, KeyCode::Char('j'));
    }
    assert_eq!(app.mem_selected, Some(2));
    assert_eq!(app.inspector.as_ref().unwrap().rid, app.memories[2].rid);
    store.press(&mut app, KeyCode::Enter);
    assert_eq!(app.pane, Pane::Inspector);
    store.press(&mut app, KeyCode::PageDown);
    store.press(&mut app, KeyCode::Down);
    assert_eq!(app.inspector_scroll, 11);
    store.press(&mut app, KeyCode::PageUp);
    store.press(&mut app, KeyCode::Char('k'));
    store.press(&mut app, KeyCode::Up);
    assert_eq!(app.inspector_scroll, 0);
    app.inspector_scroll = u16::MAX;
    store.press(&mut app, KeyCode::PageDown);
    assert_eq!(app.inspector_scroll, u16::MAX);
    assert_eq!(app.namespace_at_cursor(), None);
    assert_eq!(app.selected_namespace(), None);
}

#[test]
fn keys_quit_only_as_commands() {
    let (mut app, _, mut store) = seeded();
    assert!(!app.on_key(Key { code: KeyCode::Char('q'), control: false, pressed: false }));
    assert!(!app.on_key(Key { code: KeyCode::Char('c'), control: false, pressed: true }));
    assert!(app.on_key(Key { code: KeyCode::Char('q'), control: false, pressed: true }));
    assert!(app.on_key(Key { code: KeyCode::Char('c'), control: true, pressed: true }));
    store.press(&mut app, KeyCode::Char('/'));
    assert!(!store.press(&mut app, KeyCode::Char('q')));
    assert_eq!(app.query, "q");
    store.press(&mut app, KeyCode::Esc);
    assert!(!app.typing);
    assert_eq!(app.query, "");
    assert!(!store.press(&mut app, KeyCode::Other));
}

#[test]
fn the_screen_shows_what_is_held() {
    let (mut app, dana, mut store) = seeded();
    assert_eq!(
        text_of(&draw_title(&app)),
        "yantrikdb  source.db  snapshot 11:46:40Z · embedder bundled · 64-d · verified  · \
         Tab panes · ↑↓ move · Enter open · / search · Esc clear · n/p page · PgUp/PgDn scroll · r refresh · q quit"
    );
    assert_eq!(text_of(&draw_footer(&app)), "3 memories · page 1/1");
    assert_eq!(
        texts_of(&draw_namespaces(&app)),
        ["(all)              3", "personal           1", "work               2"]
    );
    assert!(can_draw_memories(&app));
    assert_eq!(
        texts_of(&draw_memories(&app, 40))[2],
        "2026-09-13 Dana Okafor leads t… s0.6"
    );
    assert_eq!(texts_of(&draw_memories(&app, 3))[2], "2026-09-13 D… s0.6");
    app.memories[2].score = Some(double(0.876));
    assert_eq!(
        texts_of(&draw_memories(&app, 40))[2],
        "0.88 Dana Okafor leads the Dat… s0.6"
    );
    app.memories[0].memory_type = "é".to_string();
    assert!(!can_draw_memories(&app));

    assert_eq!(texts_of(&draw_tasks(&app)), ["select a namespace to see its tasks"]);
    assert_eq!(title_tasks(&app), " tasks · 0 ");
    app.pane = Pane::Namespaces;
    app.ns_selected = Some(2);
    store.press(&mut app, KeyCode::Enter);
    assert_eq!(texts_of(&draw_tasks(&app)), ["[open] Ship the atlas TUI · high"]);
    assert_eq!(title_tasks(&app), " tasks · 1 ");
    app.tasks.clear();
    assert_eq!(texts_of(&draw_tasks(&app)), ["no tasks"]);

    store.memories[0].metadata = "{\"a\": [1, 2]}".to_string();
    let i = app.memories.iter().position(|m| m.rid == dana).unwrap();
    app.mem_selected = Some(i);
    app.open_selected();
    store.answer(&mut app);
    let lines = draw_inspector(&app);
    assert_eq!(
        texts_of(&lines),
        [
            "semantic · work · importance 0.60 · active",
            "created 2026-09-13  domain general  source user",
            "00000000-rid",
            "metadata {\"a\":[1,2]}",
            "",
            "Dana Okafor leads the Data Platform team at Northwind Analytics.",
            "",
            "ENTITIES · 1",
            "Northwind Analytics",
            "",
            "CLAIMS BACKED BY THIS MEMORY · 1",
            "• Dana Okafor — leads → Data Platform team  (active, agent_stated)",
            "",
            "REVISION HISTORY · 1",
            "• r1 · 2026-09-13 · importance bump",
            "    was: Dana Okafor leads the Data Platform team at Northwind Analytics.",
        ]
    );
    assert_eq!(lines[0].spans[0].tone, Tone::Key);
    assert_eq!(lines[7].spans[0].tone, Tone::Head);
    assert!(can_title_inspector(&app));
    assert_eq!(title_inspector(&app), " memory 00000000 ");
}

#[test]
fn an_empty_inspector_says_so() {
    let mut store = Store::new();
    let mut app = store.open();
    assert_eq!(app.status, "0 memories · page 1/1");
    assert_eq!(texts_of(&draw_inspector(&app)), ["select a memory"]);
    assert_eq!(title_inspector(&app), " inspector ");
    app.move_selection(1);
    assert_eq!(app.mem_selected, None);
}

#[test]
fn what_cannot_be_read_is_said_in_the_inspector() {
    let reads = Reads {
        record: Err("gone".to_string()),
        entities: Err("no table".to_string()),
        claims: Err("no claims".to_string()),
        revisions: Err("no key".to_string()),
    };
    assert!(reads.can_inspect());
    let ins = reads.inspect("r");
    assert_eq!(texts_of(&ins.header), ["get failed: gone"]);
    assert_eq!(ins.text, "");
    assert!(ins.entities.is_empty());
    assert_eq!(ins.claims, ["claims unavailable: no claims"]);
    assert_eq!(ins.revisions, ["revisions unavailable: no key"]);
    let missing = Reads {
        record: Ok(None),
        entities: Ok(vec!["A".to_string(), "B".to_string()]),
        claims: Ok(Vec::new()),
        revisions: Ok(Vec::new()),
    };
    let ins = missing.inspect("r");
    assert_eq!(texts_of(&ins.header), ["(record not found)"]);
    assert_eq!(ins.entities, ["A", "B"]);
}

#[test]
fn claims_show_denials_and_windows() {
    let (mut store, dana) = build_source();
    let row = &mut store.tables.claims[0];
    row.polarity = -1;
    row.valid_from = Some(double(86_400.0));
    let text = |store: &Store| store.reads(&dana).inspect(&dana).claims[0].clone();
    let front = "Dana Okafor — NOT leads → Data Platform team  (negative, agent_stated)";
    assert_eq!(text(&store), format!("{front} [from 1970-01-02]"));
    store.tables.claims[0].valid_to = Some(double(172_800.0));
    assert_eq!(text(&store), format!("{front} [1970-01-02 → 1970-01-03]"));
    store.tables.claims[0].valid_from = Some(double(f64::INFINITY));
    assert_eq!(text(&store), format!("{front} [until 1970-01-03]"));
    store.tables.claims[0].valid_to = Some(double(1e300));
    assert!(!store.reads(&dana).can_inspect());
}
