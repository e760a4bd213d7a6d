//! The explorer: what it shows, what it wants to know from the store, and how
//! keys and answers change it.
//!
//! An [`App`] asks for one read at a time ([`App::request`]) and is given what
//! came of it by one of the methods whose names start with `on_`. Keys are
//! taken while nothing is asked for.

use vstd::prelude::*;

use crate::calendar::{clock_text, fmt_clock};
use crate::double::Double;
use crate::embedder::SearchState;
use crate::inspector::{Inspector, InspectorView, Reads};
use crate::namespaces::{has_entry, list_namespaces, lists, NamespaceRows};
use crate::screen::{no_texts, push_text, texts};
use crate::text::{chars_of, decimal, decimal_of, same_text, string_of, trim, trimmed};

verus! {

/// The memories of one page.
pub const PAGE_SIZE: usize = 200;

/// The hits of one search.
pub const SEARCH_TOP_K: usize = 50;

/// The lines that a page key scrolls.
pub const SCROLL_LINES: u16 = 10;

/// The panes of the screen.
#[derive(Clone, Copy, Debug, PartialEq, Eq, Structural)]
pub enum Pane {
    Namespaces,
    Memories,
    Inspector,
}

/// The pane to the right of `p`, or to the left, around the screen.
pub open spec fn neighbour(p: Pane, forward: bool) -> Pane {
    match (p, forward) {
        (Pane::Namespaces, true) => Pane::Memories,
        (Pane::Memories, true) => Pane::Inspector,
        (Pane::Inspector, true) => Pane::Namespaces,
        (Pane::Namespaces, false) => Pane::Inspector,
        (Pane::Memories, false) => Pane::Namespaces,
        (Pane::Inspector, false) => Pane::Memories,
    }
}

/// The pane to the right of `p`, or to the left, around the screen.
pub fn next_pane(p: Pane, forward: bool) -> (r: Pane)
    ensures
        r == neighbour(p, forward),
{
    match (p, forward) {
        (Pane::Namespaces, true) | (Pane::Inspector, false) => Pane::Memories,
        (Pane::Memories, true) | (Pane::Namespaces, false) => Pane::Inspector,
        (Pane::Inspector, true) | (Pane::Memories, false) => Pane::Namespaces,
    }
}

/// A memory as a listing of the store gives it.
pub struct Listed {
    pub rid: String,
    pub text: String,
    pub memory_type: String,
    pub importance: Double,
    /// Unix seconds.
    pub created_at: Double,
}

/// A memory that a search found.
pub struct Hit {
    pub memory: Listed,
    pub score: Double,
}

/// One row of the list of memories.
pub struct MemoryRow {
    pub rid: String,
    pub text: String,
    pub memory_type: String,
    pub importance: Double,
    pub created_at: Double,
    /// The score of a search hit; none for a listing row.
    pub score: Option<Double>,
}

/// A task of a namespace.
pub struct TaskRow {
    pub status: String,
    pub title: String,
    pub priority: String,
}

/// What the explorer waits for.
#[derive(Clone, Copy, Debug, PartialEq, Eq, Structural)]
pub enum Pending {
    /// A key.
    Idle,
    /// A fresh snapshot of the store.
    Snapshot,
    /// The namespaces of the snapshot.
    Namespaces,
    /// The memories of this page.
    Page(usize),
    /// The embedding of the query.
    Embedding,
    /// The memories nearest to the query.
    Recall,
    /// The reads of the selected memory.
    Inspection,
    /// The tasks of the namespace in scope.
    Tasks,
}

/// A read that the explorer asks for. None of them changes the store.
#[allow(inconsistent_fields)]
pub enum Request {
    /// Nothing: a key is waited for.
    Key,
    Snapshot,
    Namespaces,
    /// The memories from `offset` on, at most `limit`, of one namespace or of
    /// all, the newest by `sort_by` first.
    List { limit: usize, offset: usize, namespace: Option<String>, sort_by: String },
    Embed { text: String },
    /// The `top_k` memories nearest to the embedded query.
    Recall {
        query: String,
        top_k: usize,
        namespace: Option<String>,
        skip_reinforce: bool,
        expand_entities: bool,
    },
    Inspect { rid: String },
    Tasks { namespace: String },
}

/// The keys that mean something.
#[derive(Clone, Copy, Debug, PartialEq, Eq, Structural)]
pub enum KeyCode {
    Esc,
    Enter,
    Backspace,
    Tab,
    BackTab,
    Up,
    Down,
    PageUp,
    PageDown,
    Char(char),
    Other,
}

/// A key event.
#[derive(Clone, Copy, Debug, PartialEq, Eq, Structural)]
pub struct Key {
    pub code: KeyCode,
    /// Whether the control key is held.
    pub control: bool,
    /// Whether the key went down, rather than up or on.
    pub pressed: bool,
}

/// The state of the explorer.
pub struct App {
    /// The name of the store, as the user gave it.
    pub store: String,
    pub namespaces: Vec<(String, i64)>,
    pub ns_selected: Option<usize>,
    pub memories: Vec<MemoryRow>,
    pub mem_selected: Option<usize>,
    pub total: usize,
    pub page: usize,
    pub query: String,
    pub typing: bool,
    /// The query the current memory list came from, if it is a search.
    pub active_query: Option<String>,
    pub inspector: Option<Inspector>,
    pub inspector_scroll: u16,
    pub tasks: Vec<String>,
    pub pane: Pane,
    pub status: String,
    /// When the snapshot was taken, in unix seconds.
    pub snapshot_at: Double,
    pub search_state: SearchState,
    /// The namespace scope in force, kept by name; none is every namespace.
    pub scope: Option<String>,
    pub pending: Pending,
    /// Whether the tasks are read once the list of memories is done.
    pub tasks_after: bool,
}

/// The contents of an [`App`].
#[verifier::ext_equal]
pub struct AppView {
    pub store: Seq<char>,
    pub namespaces: Seq<(String, i64)>,
    pub ns_selected: Option<usize>,
    pub memories: Seq<MemoryRow>,
    pub mem_selected: Option<usize>,
    pub total: usize,
    pub page: usize,
    pub query: Seq<char>,
    pub typing: bool,
    pub active_query: Option<Seq<char>>,
    pub inspector: Option<InspectorView>,
    pub inspector_scroll: u16,
    pub tasks: Seq<Seq<char>>,
    pub pane: Pane,
    pub status: Seq<char>,
    pub snapshot_at: Double,
    pub search_state: SearchState,
    pub scope: Option<Seq<char>>,
    pub pending: Pending,
    pub tasks_after: bool,
}

/// The contents of a text that may not be there.
pub open spec fn optional(text: Option<String>) -> Option<Seq<char>> {
    match text {
        Some(t) => Some(t@),
        None => None,
    }
}

impl View for App {
    type V = AppView;

    open spec fn view(&self) -> AppView {
        AppView {
            store: self.store@,
            namespaces: self.namespaces@,
            ns_selected: self.ns_selected,
            memories: self.memories@,
            mem_selected: self.mem_selected,
            total: self.total,
            page: self.page,
            query: self.query@,
            typing: self.typing,
            active_query: optional(self.active_query),
            inspector: match self.inspector {
                Some(ins) => Some(ins@),
                None => None,
            },
            inspector_scroll: self.inspector_scroll,
            tasks: texts(self.tasks@),
            pane: self.pane,
            status: self.status@,
            snapshot_at: self.snapshot_at,
            search_state: self.search_state,
            scope: optional(self.scope),
            pending: self.pending,
            tasks_after: self.tasks_after,
        }
    }
}

// Texts and rows --------------------------------------------------------

/// The number of the last page of `total` memories, counted from nothing.
pub open spec fn last_page(total: int) -> int {
    if total <= 0 {
        0
    } else {
        (total - 1) / PAGE_SIZE as int
    }
}

/// The status line of a listing.
pub open spec fn page_status(total: usize, page: usize) -> Seq<char> {
    decimal(total as nat) + " memories · page "@ + decimal((page + 1) as nat) + "/"@ + decimal(
        (last_page(total as int) + 1) as nat,
    )
}

/// The status line of a search.
pub open spec fn hits_status(n: nat, query: Seq<char>) -> Seq<char> {
    decimal(n) + " hits for \""@ + query + "\" (Esc clears)"@
}

/// One task in a line.
pub open spec fn task_text(t: TaskRow) -> Seq<char> {
    "["@ + t.status@ + "] "@ + t.title@ + " · "@ + t.priority@
}

/// The tasks as lines, or why there are none.
pub open spec fn task_texts(tasks: Result<Vec<TaskRow>, String>) -> Seq<Seq<char>> {
    match tasks {
        Ok(ts) => ts@.map_values(|t: TaskRow| task_text(t)),
        Err(e) => seq!["tasks unavailable: "@ + e@],
    }
}

/// The row for a memory.
pub open spec fn row_of(m: Listed, score: Option<Double>) -> MemoryRow {
    MemoryRow {
        rid: m.rid,
        text: m.text,
        memory_type: m.memory_type,
        importance: m.importance,
        created_at: m.created_at,
        score,
    }
}

/// The rows of a listing.
pub open spec fn listing_rows(memories: Seq<Listed>) -> Seq<MemoryRow> {
    memories.map_values(|m: Listed| row_of(m, None))
}

/// The rows of a search.
pub open spec fn hit_rows(hits: Seq<Hit>) -> Seq<MemoryRow> {
    hits.map_values(|h: Hit| row_of(h.memory, Some(h.score)))
}

/// The first of `n` things, if there are any.
pub open spec fn first_of(n: nat) -> Option<usize> {
    if n == 0 {
        None
    } else {
        Some(0)
    }
}

/// The first place at or after `from` at which `list` has the name `name`.
pub open spec fn position(list: Seq<(String, i64)>, name: Seq<char>, from: int) -> Option<int>
    decreases list.len() - from,
{
    if from >= list.len() {
        None
    } else if list[from].0@ == name {
        Some(from)
    } else {
        position(list, name, from + 1)
    }
}

/// `i` moved by `delta` and kept among `n` places.
pub open spec fn moved(i: int, delta: int, n: int) -> int {
    if i + delta < 0 {
        0
    } else if i + delta > n - 1 {
        n - 1
    } else {
        i + delta
    }
}

// What happens ----------------------------------------------------------

impl AppView {
    /// The place of the cursor in the list of namespaces.
    pub open spec fn ns_cursor(self) -> usize {
        match self.ns_selected {
            Some(i) => i,
            None => 0,
        }
    }

    /// The namespace under the cursor; none for "(all)".
    pub open spec fn at_cursor(self) -> Option<Seq<char>> {
        if self.ns_cursor() == 0 || self.ns_cursor() >= self.namespaces.len() {
            None
        } else {
            Some(self.namespaces[self.ns_cursor() as int].0@)
        }
    }

    /// The id of the selected memory.
    pub open spec fn selected_rid(self) -> Option<Seq<char>> {
        match self.mem_selected {
            Some(i) => if i < self.memories.len() {
                Some(self.memories[i as int].rid@)
            } else {
                None
            },
            None => None,
        }
    }

    /// The tasks are read, if a namespace is in scope.
    pub open spec fn tasks_wanted(self) -> AppView {
        match self.scope {
            Some(_) => AppView { pending: Pending::Tasks, ..self },
            None => AppView { pending: Pending::Idle, tasks: Seq::empty(), ..self },
        }
    }

    /// The list of memories is done.
    pub open spec fn listed(self) -> AppView {
        if self.tasks_after {
            AppView { tasks_after: false, ..self }.tasks_wanted()
        } else {
            AppView { pending: Pending::Idle, ..self }
        }
    }

    /// The selected memory is opened in the inspector.
    pub open spec fn opened(self) -> AppView {
        match self.selected_rid() {
            Some(_) => AppView { inspector_scroll: 0, pending: Pending::Inspection, ..self },
            None => AppView { inspector_scroll: 0, inspector: None, ..self }.listed(),
        }
    }

    /// A page is listed.
    pub open spec fn page_wanted(self, page: usize) -> AppView {
        AppView { pending: Pending::Page(page), ..self }
    }

    /// A search is made: for a blank query the first page is listed, and where
    /// search is disabled the status line says why.
    pub open spec fn search_wanted(self) -> AppView {
        if trimmed(self.query).len() == 0 {
            self.page_wanted(0)
        } else if self.search_state is Disabled {
            AppView { status: self.search_state.note(), query: Seq::empty(), ..self }.listed()
        } else {
            AppView { pending: Pending::Embedding, ..self }
        }
    }

    /// A page came.
    pub open spec fn page_came(
        self,
        page: usize,
        memories: Seq<Listed>,
        total: usize,
    ) -> AppView {
        AppView {
            memories: listing_rows(memories),
            total,
            page,
            active_query: None,
            mem_selected: first_of(memories.len()),
            status: page_status(total, page),
            ..self
        }.opened()
    }

    /// A page did not come: the old list stays, and its selection is opened
    /// anew.
    pub open spec fn page_failed(self, e: Seq<char>) -> AppView {
        AppView { status: "list failed: "@ + e, ..self }.opened()
    }

    /// The hits of a search came.
    pub open spec fn hits_came(self, hits: Seq<Hit>) -> AppView {
        AppView {
            memories: hit_rows(hits),
            status: hits_status(hits.len(), trimmed(self.query)),
            active_query: Some(trimmed(self.query)),
            mem_selected: first_of(hits.len()),
            ..self
        }.opened()
    }

    /// The search ended without hits, for a reason.
    pub open spec fn search_failed(self, why: Seq<char>) -> AppView {
        AppView { status: why, ..self }.listed()
    }

    /// The place of the scope in the list of namespaces.
    pub open spec fn scope_place(self) -> Option<int> {
        match self.scope {
            Some(name) => position(self.namespaces, name, 0),
            None => Some(0),
        }
    }

    /// The cursor is put on the scope; a scope that is gone falls back to all.
    pub open spec fn reselected(self) -> AppView {
        match self.scope_place() {
            Some(i) => AppView { ns_selected: Some(i as usize), ..self },
            None => AppView { ns_selected: Some(0), scope: None, ..self },
        }
    }

    /// Everything is read again for new namespaces.
    pub open spec fn reloaded(self) -> AppView {
        let v = AppView { tasks_after: true, ..self.reselected() };
        if v.active_query is Some {
            v.search_wanted()
        } else if (v.page as int) < last_page(v.total as int) {
            v.page_wanted(v.page)
        } else {
            v.page_wanted(last_page(v.total as int) as usize)
        }
    }

    /// The selection moves by `delta`, or the inspector scrolls by one line.
    pub open spec fn selection_moved(self, delta: int) -> AppView {
        match self.pane {
            Pane::Namespaces => if self.namespaces.len() == 0 {
                self
            } else {
                AppView {
                    ns_selected: Some(
                        moved(
                            self.ns_cursor() as int,
                            delta,
                            self.namespaces.len() as int,
                        ) as usize,
                    ),
                    ..self
                }
            },
            Pane::Memories => if self.memories.len() == 0 {
                self
            } else {
                AppView {
                    mem_selected: Some(
                        moved(
                            match self.mem_selected {
                                Some(i) => i as int,
                                None => 0,
                            },
                            delta,
                            self.memories.len() as int,
                        ) as usize,
                    ),
                    ..self
                }.opened()
            },
            Pane::Inspector => self.scrolled(
                if delta > 0 {
                    1
                } else {
                    -1
                },
            ),
        }
    }

    /// The inspector scrolls by `n` lines, within its range.
    pub open spec fn scrolled(self, n: int) -> AppView {
        let to = self.inspector_scroll + n;
        AppView {
            inspector_scroll: if to < 0 {
                0
            } else if to > u16::MAX {
                u16::MAX
            } else {
                to as u16
            },
            ..self
        }
    }

    /// What is under the cursor is opened.
    pub open spec fn activated(self) -> AppView {
        match self.pane {
            Pane::Namespaces => AppView {
                scope: self.at_cursor(),
                query: Seq::empty(),
                pane: Pane::Memories,
                tasks_after: true,
                ..self
            }.page_wanted(0),
            Pane::Memories => AppView { pane: Pane::Inspector, ..self }.opened(),
            Pane::Inspector => self,
        }
    }

    /// The search is cleared and the first page listed.
    pub open spec fn cleared(self) -> AppView {
        AppView { query: Seq::empty(), active_query: None, ..self }.page_wanted(0)
    }

    /// A key while a query is typed.
    pub open spec fn typed(self, key: Key) -> AppView {
        match key.code {
            KeyCode::Esc => AppView { typing: false, ..self }.cleared(),
            KeyCode::Enter => AppView { typing: false, ..self }.search_wanted(),
            KeyCode::Backspace => if self.query.len() == 0 {
                self
            } else {
                AppView { query: self.query.drop_last(), ..self }
            },
            KeyCode::Char(c) => if key.control {
                self
            } else {
                AppView { query: self.query.push(c), ..self }
            },
            _ => self,
        }
    }

    /// A key as a command.
    pub open spec fn commanded(self, key: Key) -> AppView {
        match key.code {
            KeyCode::Tab => AppView { pane: neighbour(self.pane, true), ..self },
            KeyCode::BackTab => AppView { pane: neighbour(self.pane, false), ..self },
            KeyCode::Esc => if self.active_query is Some {
                self.cleared()
            } else {
                self
            },
            KeyCode::Down => self.selection_moved(1),
            KeyCode::Up => self.selection_moved(-1),
            KeyCode::PageDown => self.scrolled(SCROLL_LINES as int),
            KeyCode::PageUp => self.scrolled(-(SCROLL_LINES as int)),
            KeyCode::Enter => self.activated(),
            KeyCode::Char(c) => self.lettered(c),
            KeyCode::Backspace | KeyCode::Other => self,
        }
    }

    /// A letter as a command.
    pub open spec fn lettered(self, c: char) -> AppView {
        if c == '/' {
            AppView { typing: true, pane: Pane::Memories, ..self }
        } else if c == 'r' {
            AppView { pending: Pending::Snapshot, ..self }
        } else if c == 'n' && self.active_query is None && (self.page + 1) * PAGE_SIZE
            < self.total {
            self.page_wanted((self.page + 1) as usize)
        } else if c == 'p' && self.active_query is None && self.page > 0 {
            self.page_wanted((self.page - 1) as usize)
        } else if c == 'j' {
            self.selection_moved(1)
        } else if c == 'k' {
            self.selection_moved(-1)
        } else {
            self
        }
    }

    /// Whether a key ends the program.
    pub open spec fn quits(self, key: Key) -> bool {
        &&& key.pressed
        &&& !self.typing
        &&& (key.code == KeyCode::Char('q') || (key.code == KeyCode::Char('c') && key.control))
    }

    /// A key event; one that ends the program changes nothing.
    pub open spec fn after_key(self, key: Key) -> AppView {
        if !key.pressed || self.quits(key) {
            self
        } else if self.typing {
            self.typed(key)
        } else {
            self.commanded(key)
        }
    }

    /// Whether the inspector shows the selected memory, and nothing where
    /// nothing is selected.
    pub open spec fn in_step(self) -> bool {
        match self.selected_rid() {
            Some(rid) => self.inspector matches Some(ins) && ins.rid == rid,
            None => self.inspector is None,
        }
    }

    /// What holds whenever the explorer waits for something.
    pub open spec fn wf(self) -> bool {
        &&& self.ns_selected matches Some(i) && i < self.namespaces.len()
        &&& (self.mem_selected is None <==> self.memories.len() == 0)
        &&& self.mem_selected matches Some(i) ==> i < self.memories.len()
        &&& self.scope matches Some(name) ==> has_entry(self.namespaces, name)
        &&& self.page * PAGE_SIZE <= usize::MAX
        &&& self.typing ==> self.pane == Pane::Memories && self.pending == Pending::Idle
        &&& self.pending != Pending::Inspection ==> self.in_step()
        &&& match self.pending {
            Pending::Idle | Pending::Snapshot | Pending::Namespaces => !self.tasks_after,
            Pending::Page(page) => page * PAGE_SIZE <= usize::MAX,
            Pending::Embedding | Pending::Recall => trimmed(self.query).len() > 0
                && self.search_state is Ready,
            Pending::Inspection => self.mem_selected is Some,
            Pending::Tasks => self.scope is Some && !self.tasks_after,
        }
    }

    /// Whether commands can be given.
    pub open spec fn at_rest(self) -> bool {
        self.wf() && self.pending == Pending::Idle && !self.typing
    }

    /// Whether `request` is the read that is waited for.
    pub open spec fn asks(self, request: Request) -> bool {
        match self.pending {
            Pending::Idle => request is Key,
            Pending::Snapshot => request is Snapshot,
            Pending::Namespaces => request is Namespaces,
            Pending::Page(page) => {
                &&& request matches Request::List { limit, offset, namespace, sort_by }
                &&& limit == PAGE_SIZE
                &&& offset == page * PAGE_SIZE
                &&& optional(namespace) == self.scope
                &&& sort_by@ == "created_at"@
            },
            Pending::Embedding => request matches Request::Embed { text } && text@ == trimmed(
                self.query,
            ),
            Pending::Recall => {
                &&& request matches Request::Recall {
                    query,
                    top_k,
                    namespace,
                    skip_reinforce,
                    expand_entities,
                }
                &&& query@ == trimmed(self.query)
                &&& top_k == SEARCH_TOP_K
                &&& optional(namespace) == self.scope
                &&& skip_reinforce
                &&& !expand_entities
            },
            Pending::Inspection => request matches Request::Inspect { rid } && Some(rid@)
                == self.selected_rid(),
            Pending::Tasks => request matches Request::Tasks { namespace } && Some(namespace@)
                == self.scope,
        }
    }

    /// The explorer on a fresh snapshot with these namespaces: all of them in
    /// scope, the first page to be listed.
    pub open spec fn started(
        store: Seq<char>,
        snapshot_at: Double,
        search_state: SearchState,
        namespaces: Seq<(String, i64)>,
    ) -> AppView {
        AppView {
            store,
            namespaces,
            ns_selected: Some(0),
            memories: Seq::empty(),
            mem_selected: None,
            total: 0,
            page: 0,
            query: Seq::empty(),
            typing: false,
            active_query: None,
            inspector: None,
            inspector_scroll: 0,
            tasks: Seq::empty(),
            pane: Pane::Memories,
            status: Seq::empty(),
            snapshot_at,
            search_state,
            scope: None,
            pending: Pending::Page(0),
            tasks_after: true,
        }
    }
}

// The explorer at work --------------------------------------------------

fn copy_optional(text: &Option<String>) -> (r: Option<String>)
    ensures
        optional(r) == optional(*text),
{
    match text {
        Some(t) => Some(t.clone()),
        None => None,
    }
}

fn make_row(m: Listed, score: Option<Double>) -> (r: MemoryRow)
    ensures
        r == row_of(m, score),
{
    MemoryRow {
        rid: m.rid,
        text: m.text,
        memory_type: m.memory_type,
        importance: m.importance,
        created_at: m.created_at,
        score,
    }
}

fn make_listing(memories: Vec<Listed>) -> (rows: Vec<MemoryRow>)
    ensures
        rows@ == listing_rows(memories@),
{
    let ghost all = listing_rows(memories@);
    let mut rows: Vec<MemoryRow> = Vec::new();
    for m in it: memories
        invariant
            it.seq() == memories@,
            all == listing_rows(memories@),
            rows@ == all.take(it.index() as int),
    {
        rows.push(make_row(m, None));
        assert(all.take(it.index() + 1) =~= all.take(it.index() as int).push(
            all[it.index() as int],
        ));
    }
    assert(all.take(all.len() as int) =~= all);
    rows
}

fn make_hits(hits: Vec<Hit>) -> (rows: Vec<MemoryRow>)
    ensures
        rows@ == hit_rows(hits@),
{
    let ghost all = hit_rows(hits@);
    let mut rows: Vec<MemoryRow> = Vec::new();
    for h in it: hits
        invariant
            it.seq() == hits@,
            all == hit_rows(hits@),
            rows@ == all.take(it.index() as int),
    {
        rows.push(make_row(h.memory, Some(h.score)));
        assert(all.take(it.index() + 1) =~= all.take(it.index() as int).push(
            all[it.index() as int],
        ));
    }
    assert(all.take(all.len() as int) =~= all);
    rows
}

fn describe_tasks(tasks: &Result<Vec<TaskRow>, String>) -> (r: Vec<String>)
    ensures
        texts(r@) == task_texts(*tasks),
{
    let mut out = no_texts();
    match tasks {
        Ok(ts) => {
            let ghost all = ts@.map_values(|t: TaskRow| task_text(t));
            let mut i: usize = 0;
            assert(all.take(0) =~= Seq::empty());
            while i < ts.len()
                invariant
                    i <= ts.len(),
                    all == ts@.map_values(|t: TaskRow| task_text(t)),
                    texts(out@) == all.take(i as int),
                decreases ts.len() - i,
            {
                let t = &ts[i];
                let line = "[".to_owned().concat(t.status.as_str()).concat("] ").concat(
                    t.title.as_str(),
                ).concat(" · ").concat(t.priority.as_str());
                push_text(&mut out, line);
                assert(all.take(i + 1) =~= all.take(i as int).push(all[i as int]));
                i += 1;
            }
            assert(all.take(i as int) =~= all);
        },
        Err(e) => {
            push_text(&mut out, "tasks unavailable: ".to_owned().concat(e.as_str()));
            assert(texts(out@) =~= task_texts(*tasks));
        },
    }
    out
}

fn number_of_last_page(total: usize) -> (r: usize)
    ensures
        r == last_page(total as int),
{
    if total == 0 {
        0
    } else {
        (total - 1) / PAGE_SIZE
    }
}

fn shift(i: usize, delta: i32, n: usize) -> (r: usize)
    requires
        n > 0,
    ensures
        r == moved(i as int, delta as int, n as int),
{
    let to: i128 = i as i128 + delta as i128;
    if to < 0 {
        0
    } else if to > n as i128 - 1 {
        n - 1
    } else {
        to as usize
    }
}

proof fn lemma_position(list: Seq<(String, i64)>, name: Seq<char>, from: int)
    requires
        0 <= from <= list.len(),
    ensures
        match position(list, name, from) {
            Some(i) => {
                &&& from <= i < list.len()
                &&& list[i].0@ == name
                &&& forall|j: int| from <= j < i ==> (#[trigger] list[j]).0@ != name
            },
            None => forall|j: int| from <= j < list.len() ==> (#[trigger] list[j]).0@ != name,
        },
    decreases list.len() - from,
{
    if from < list.len() && list[from].0@ != name {
        lemma_position(list, name, from + 1);
    }
}

fn find_position(list: &Vec<(String, i64)>, name: &str) -> (r: Option<usize>)
    ensures
        match r {
            Some(i) => position(list@, name@, 0) == Some(i as int),
            None => position(list@, name@, 0) is None,
        },
{
    let mut i: usize = 0;
    while i < list.len()
        invariant
            i <= list.len(),
            position(list@, name@, i as int) == position(list@, name@, 0),
        decreases list.len() - i,
    {
        if same_text(list[i].0.as_str(), name) {
            return Some(i);
        }
        i += 1;
    }
    None
}

impl App {
    /// The explorer on a fresh snapshot, or why its namespaces could not be
    /// read.
    pub fn open(
        store: &str,
        snapshot_at: Double,
        search_state: SearchState,
        rows: Result<NamespaceRows, String>,
    ) -> (r: Result<App, String>)
        requires
            rows matches Ok(rows) ==> rows.countable(),
        ensures
            match (rows, r) {
                (Ok(rows), Ok(app)) => {
                    &&& lists(rows, app.namespaces@)
                    &&& app@ == AppView::started(
                        store@,
                        snapshot_at,
                        search_state,
                        app.namespaces@,
                    )
                    &&& app@.wf()
                },
                (Err(e), Err(why)) => why == e,
                _ => false,
            },
    {
        match rows {
            Err(e) => Err(e),
            Ok(rows) => {
                let app = App {
                    store: store.to_owned(),
                    namespaces: list_namespaces(&rows),
                    ns_selected: Some(0),
                    memories: Vec::new(),
                    mem_selected: None,
                    total: 0,
                    page: 0,
                    query: String::new(),
                    typing: false,
                    active_query: None,
                    inspector: None,
                    inspector_scroll: 0,
                    tasks: no_texts(),
                    pane: Pane::Memories,
                    status: String::new(),
                    snapshot_at,
                    search_state,
                    scope: None,
                    pending: Pending::Page(0),
                    tasks_after: true,
                };
                assert(app@ =~= AppView::started(
                    store@,
                    snapshot_at,
                    search_state,
                    app.namespaces@,
                ));
                Ok(app)
            },
        }
    }

    /// The read that is waited for.
    pub fn request(&self) -> (r: Request)
        requires
            self@.wf(),
        ensures
            self@.asks(r),
    {
        match self.pending {
            Pending::Idle => Request::Key,
            Pending::Snapshot => Request::Snapshot,
            Pending::Namespaces => Request::Namespaces,
            Pending::Page(page) => Request::List {
                limit: PAGE_SIZE,
                offset: page * PAGE_SIZE,
                namespace: self.selected_namespace(),
                sort_by: "created_at".to_owned(),
            },
            Pending::Embedding => Request::Embed { text: trim(self.query.as_str()) },
            Pending::Recall => Request::Recall {
                query: trim(self.query.as_str()),
                top_k: SEARCH_TOP_K,
                namespace: self.selected_namespace(),
                skip_reinforce: true,
                expand_entities: false,
            },
            Pending::Inspection => {
                let rid = match self.mem_selected {
                    Some(i) => self.memories[i].rid.clone(),
                    None => String::new(),
                };
                Request::Inspect { rid }
            },
            Pending::Tasks => {
                let namespace = match &self.scope {
                    Some(name) => name.clone(),
                    None => String::new(),
                };
                Request::Tasks { namespace }
            },
        }
    }

    /// The scope in force; none is every namespace.
    pub fn selected_namespace(&self) -> (r: Option<String>)
        ensures
            optional(r) == self@.scope,
    {
        copy_optional(&self.scope)
    }

    /// The namespace under the cursor in the namespace pane.
    pub fn namespace_at_cursor(&self) -> (r: Option<String>)
        ensures
            optional(r) == self@.at_cursor(),
    {
        let i: usize = match self.ns_selected {
            Some(i) => i,
            None => 0,
        };
        if i == 0 || i >= self.namespaces.len() {
            None
        } else {
            Some(self.namespaces[i].0.clone())
        }
    }

    /// When the snapshot was taken, and whether it can be searched.
    pub fn header_note(&self) -> (r: String)
        ensures
            r@ == "snapshot "@ + clock_text(self.snapshot_at) + " · "@ + self.search_state.note(),
    {
        let search = match &self.search_state {
            SearchState::Ready(note) => note,
            SearchState::Disabled(note) => note,
        };
        "snapshot ".to_owned().concat(fmt_clock(&self.snapshot_at).as_str()).concat(
            " · ",
        ).concat(search.as_str())
    }

    /// Asks for a page.
    pub fn load_page(&mut self, page: usize)
        requires
            page * PAGE_SIZE <= usize::MAX,
        ensures
            final(self)@ == old(self)@.page_wanted(page),
            old(self)@.at_rest() ==> final(self)@.wf(),
    {
        self.pending = Pending::Page(page);
        assert(self@ =~= old(self)@.page_wanted(page));
    }

    /// Asks for the tasks of the namespace in scope; without one there are
    /// none.
    pub fn load_tasks(&mut self)
        ensures
            final(self)@ == old(self)@.tasks_wanted(),
            old(self)@.at_rest() ==> final(self)@.wf(),
    {
        if self.scope.is_some() {
            self.pending = Pending::Tasks;
        } else {
            self.tasks = no_texts();
            self.pending = Pending::Idle;
        }
        assert(self@ =~= old(self)@.tasks_wanted());
    }

    fn finish_listing(&mut self)
        ensures
            final(self)@ == old(self)@.listed(),
    {
        if self.tasks_after {
            self.tasks_after = false;
            assert(self@ =~= AppView { tasks_after: false, ..old(self)@ });
            self.load_tasks();
        } else {
            self.pending = Pending::Idle;
            assert(self@ =~= old(self)@.listed());
        }
    }

    /// Opens the selected memory in the inspector.
    pub fn open_selected(&mut self)
        ensures
            final(self)@ == old(self)@.opened(),
            old(self)@.at_rest() ==> final(self)@.wf(),
    {
        self.inspector_scroll = 0;
        let selected: bool = match self.mem_selected {
            Some(i) => i < self.memories.len(),
            None => false,
        };
        if selected {
            self.pending = Pending::Inspection;
            assert(self@ =~= old(self)@.opened());
        } else {
            self.inspector = None;
            assert(self@ =~= AppView { inspector_scroll: 0, inspector: None, ..old(self)@ });
            self.finish_listing();
        }
    }

    /// Searches the scope for the query.
    pub fn search(&mut self)
        ensures
            final(self)@ == old(self)@.search_wanted(),
            old(self)@.at_rest() ==> final(self)@.wf(),
    {
        let query = trim(self.query.as_str());
        if query.as_str().is_empty() {
            self.load_page(0);
            return;
        }
        let disabled = match &self.search_state {
            SearchState::Disabled(reason) => Some(reason.clone()),
            SearchState::Ready(_) => None,
        };
        match disabled {
            Some(reason) => {
                self.status = reason;
                self.query = String::new();
                assert(self@ =~= AppView {
                    status: old(self)@.search_state.note(),
                    query: Seq::empty(),
                    ..old(self)@
                });
                self.finish_listing();
            },
            None => {
                self.pending = Pending::Embedding;
                assert(self@ =~= old(self)@.search_wanted());
            },
        }
    }

    /// Asks for a fresh snapshot, on which every view is made anew.
    pub fn refresh(&mut self)
        ensures
            final(self)@ == (AppView { pending: Pending::Snapshot, ..old(self)@ }),
            old(self)@.at_rest() ==> final(self)@.wf(),
    {
        self.pending = Pending::Snapshot;
        assert(self@ =~= AppView { pending: Pending::Snapshot, ..old(self)@ });
    }

    fn scroll(&mut self, down: bool, n: u16)
        ensures
            final(self)@ == old(self)@.scrolled(
                if down {
                    n as int
                } else {
                    -(n as int)
                },
            ),
    {
        self.inspector_scroll = if down {
            self.inspector_scroll.saturating_add(n)
        } else {
            self.inspector_scroll.saturating_sub(n)
        };
        assert(self@ =~= old(self)@.scrolled(
            if down {
                n as int
            } else {
                -(n as int)
            },
        ));
    }

    /// Moves the selection of the pane by `delta`, or scrolls the inspector
    /// by one line.
    pub fn move_selection(&mut self, delta: i32)
        ensures
            final(self)@ == old(self)@.selection_moved(delta as int),
            old(self)@.at_rest() ==> final(self)@.wf(),
    {
        match self.pane {
            Pane::Namespaces => {
                let n: usize = self.namespaces.len();
                if n == 0 {
                    return;
                }
                let i: usize = match self.ns_selected {
                    Some(i) => i,
                    None => 0,
                };
                self.ns_selected = Some(shift(i, delta, n));
                assert(self@ =~= old(self)@.selection_moved(delta as int));
            },
            Pane::Memories => {
                let n: usize = self.memories.len();
                if n == 0 {
                    return;
                }
                let i: usize = match self.mem_selected {
                    Some(i) => i,
                    None => 0,
                };
                let to: usize = shift(i, delta, n);
                self.mem_selected = Some(to);
                assert(self@ =~= AppView { mem_selected: Some(to), ..old(self)@ });
                self.open_selected();
            },
            Pane::Inspector => {
                self.scroll(delta > 0, 1);
            },
        }
    }

    /// Opens what is under the cursor.
    pub fn activate(&mut self)
        ensures
            final(self)@ == old(self)@.activated(),
            old(self)@.at_rest() ==> final(self)@.wf(),
    {
        match self.pane {
            Pane::Namespaces => {
                self.scope = self.namespace_at_cursor();
                self.query = String::new();
                self.pane = Pane::Memories;
                self.tasks_after = true;
                assert(self@ =~= AppView {
                    scope: old(self)@.at_cursor(),
                    query: Seq::empty(),
                    pane: Pane::Memories,
                    tasks_after: true,
                    ..old(self)@
                });
                self.load_page(0);
            },
            Pane::Memories => {
                self.pane = Pane::Inspector;
                assert(self@ =~= AppView { pane: Pane::Inspector, ..old(self)@ });
                self.open_selected();
            },
            Pane::Inspector => {},
        }
    }

    fn clear_search(&mut self)
        ensures
            final(self)@ == old(self)@.cleared(),
    {
        self.query = String::new();
        self.active_query = None;
        assert(self@ =~= AppView { query: Seq::empty(), active_query: None, ..old(self)@ });
        self.load_page(0);
    }

    fn type_key(&mut self, key: Key)
        ensures
            final(self)@ == old(self)@.typed(key),
    {
        match key.code {
            KeyCode::Esc => {
                self.typing = false;
                assert(self@ =~= AppView { typing: false, ..old(self)@ });
                self.clear_search();
            },
            KeyCode::Enter => {
                self.typing = false;
                assert(self@ =~= AppView { typing: false, ..old(self)@ });
                self.search();
            },
            KeyCode::Backspace => {
                let chars = chars_of(self.query.as_str());
                if chars.len() > 0 {
                    self.query = string_of(&chars, 0, chars.len() - 1);
                    assert(self@.query =~= old(self)@.query.drop_last());
                }
                assert(self@ =~= old(self)@.typed(key));
            },
            KeyCode::Char(c) => {
                if !key.control {
                    self.query.push(c);
                }
                assert(self@ =~= old(self)@.typed(key));
            },
            _ => {},
        }
    }

    fn letter(&mut self, c: char)
        requires
            old(self)@.page * PAGE_SIZE <= usize::MAX,
        ensures
            final(self)@ == old(self)@.lettered(c),
    {
        if c == '/' {
            self.typing = true;
            self.pane = Pane::Memories;
            assert(self@ =~= old(self)@.lettered(c));
        } else if c == 'r' {
            self.refresh();
        } else if c == 'n' {
            proof {
                lemma_last_page(self.page as int, self.total as int);
            }
            if self.active_query.is_none() && self.page < number_of_last_page(self.total) {
                self.load_page(self.page + 1);
            }
        } else if c == 'p' {
            if self.active_query.is_none() && self.page > 0 {
                self.load_page(self.page - 1);
            }
        } else if c == 'j' {
            self.move_selection(1);
        } else if c == 'k' {
            self.move_selection(-1);
        }
    }

    fn command(&mut self, key: Key)
        requires
            old(self)@.page * PAGE_SIZE <= usize::MAX,
        ensures
            final(self)@ == old(self)@.commanded(key),
    {
        match key.code {
            KeyCode::Tab => {
                self.pane = next_pane(self.pane, true);
                assert(self@ =~= old(self)@.commanded(key));
            },
            KeyCode::BackTab => {
                self.pane = next_pane(self.pane, false);
                assert(self@ =~= old(self)@.commanded(key));
            },
            KeyCode::Esc => {
                if self.active_query.is_some() {
                    self.clear_search();
                }
            },
            KeyCode::Down => self.move_selection(1),
            KeyCode::Up => self.move_selection(-1),
            KeyCode::PageDown => self.scroll(true, SCROLL_LINES),
            KeyCode::PageUp => self.scroll(false, SCROLL_LINES),
            KeyCode::Enter => self.activate(),
            KeyCode::Char(c) => self.letter(c),
            KeyCode::Backspace | KeyCode::Other => {},
        }
    }

    /// Takes a key event, and says whether it ends the program.
    pub fn on_key(&mut self, key: Key) -> (quit: bool)
        requires
            old(self)@.wf(),
            old(self)@.pending == Pending::Idle,
        ensures
            quit == old(self)@.quits(key),
            final(self)@ == old(self)@.after_key(key),
            final(self)@.wf(),
    {
        proof {
            law_keys_keep_the_explorer_well_formed(self@, key);
        }
        if !key.pressed {
            return false;
        }
        if self.typing {
            self.type_key(key);
            return false;
        }
        let quit: bool = match key.code {
            KeyCode::Char(c) => c == 'q' || (c == 'c' && key.control),
            _ => false,
        };
        if !quit {
            self.command(key);
        }
        quit
    }
}

/// The next page exists where the page is not the last one.
proof fn lemma_last_page(page: int, total: int)
    requires
        page >= 0,
        total >= 0,
    ensures
        (page + 1) * PAGE_SIZE < total <==> page < last_page(total),
        last_page(total) * PAGE_SIZE <= total,
        last_page(total) >= 0,
{
}

proof fn lemma_opened(v: AppView)
    requires
        v.ns_selected matches Some(i) && i < v.namespaces.len(),
        v.mem_selected is None <==> v.memories.len() == 0,
        v.mem_selected matches Some(i) ==> i < v.memories.len(),
        v.scope matches Some(name) ==> has_entry(v.namespaces, name),
        v.page * PAGE_SIZE <= usize::MAX,
        !v.typing,
    ensures
        v.opened().wf(),
{
}

/// Whatever key comes, the explorer stays well formed.
pub proof fn law_keys_keep_the_explorer_well_formed(v: AppView, key: Key)
    requires
        v.wf(),
        v.pending == Pending::Idle,
    ensures
        v.after_key(key).wf(),
{
    lemma_last_page(v.page as int, v.total as int);
    if v.at_cursor() is Some {
        assert(v.namespaces[v.ns_cursor() as int].0@ == v.at_cursor()->0);
    }
    if !v.typing {
        lemma_opened(AppView { pane: Pane::Inspector, ..v });
    }
}

// Answers ---------------------------------------------------------------

impl AppView {
    /// A fresh snapshot came, or did not.
    pub open spec fn after_snapshot(self, taken: Result<(Double, SearchState), String>) -> AppView {
        match taken {
            Ok((at, state)) => AppView {
                snapshot_at: at,
                search_state: state,
                pending: Pending::Namespaces,
                ..self
            },
            Err(e) => AppView {
                status: "refresh failed: "@ + e@,
                pending: Pending::Idle,
                ..self
            },
        }
    }

    /// New namespaces came as `namespaces`, or did not.
    pub open spec fn after_namespaces(
        self,
        read: Result<Seq<(String, i64)>, Seq<char>>,
    ) -> AppView {
        match read {
            Ok(namespaces) => AppView { namespaces, ..self }.reloaded(),
            Err(e) => AppView { status: "refresh failed: "@ + e, ..self }.reloaded(),
        }
    }

    /// The page that was waited for came, or did not.
    pub open spec fn after_page(self, read: Result<(Vec<Listed>, usize), String>) -> AppView {
        match read {
            Ok((memories, total)) => self.page_came(self.pending->Page_0, memories@, total),
            Err(e) => self.page_failed(e@),
        }
    }

    /// The query was embedded, or not.
    pub open spec fn after_embedding(self, embedded: Result<(), String>) -> AppView {
        match embedded {
            Ok(_) => AppView { pending: Pending::Recall, ..self },
            Err(e) => self.search_failed("embed failed: "@ + e@),
        }
    }

    /// The hits came, or did not.
    pub open spec fn after_recall(self, read: Result<Vec<Hit>, String>) -> AppView {
        match read {
            Ok(hits) => self.hits_came(hits@),
            Err(e) => self.search_failed("search failed: "@ + e@),
        }
    }

    /// The reads of the selected memory came.
    pub open spec fn after_inspection(self, reads: Reads) -> AppView {
        AppView { inspector: Some(reads.inspection(self.selected_rid()->0)), ..self }.listed()
    }

    /// The tasks came, or did not.
    pub open spec fn after_tasks(self, read: Result<Vec<TaskRow>, String>) -> AppView {
        AppView { tasks: task_texts(read), pending: Pending::Idle, ..self }
    }
}

proof fn lemma_reloaded(v: AppView)
    requires
        v.namespaces.len() > 0,
        v.namespaces.len() <= usize::MAX,
        v.mem_selected is None <==> v.memories.len() == 0,
        v.mem_selected matches Some(i) ==> i < v.memories.len(),
        v.page * PAGE_SIZE <= usize::MAX,
        !v.typing,
        v.in_step(),
    ensures
        v.reloaded().wf(),
{
    if v.scope is Some {
        lemma_position(v.namespaces, v.scope->0, 0);
    }
    lemma_last_page(v.page as int, v.total as int);
}

impl App {
    /// Takes the outcome of a fresh snapshot: when it was taken, and whether
    /// it can be searched.
    pub fn on_snapshot(&mut self, taken: Result<(Double, SearchState), String>)
        requires
            old(self)@.wf(),
            old(self)@.pending == Pending::Snapshot,
        ensures
            final(self)@ == old(self)@.after_snapshot(taken),
            final(self)@.wf(),
    {
        match taken {
            Ok((at, state)) => {
                self.snapshot_at = at;
                self.search_state = state;
                self.pending = Pending::Namespaces;
            },
            Err(e) => {
                self.status = "refresh failed: ".to_owned().concat(e.as_str());
                self.pending = Pending::Idle;
            },
        }
        assert(self@ =~= old(self)@.after_snapshot(taken));
    }

    fn reselect(&mut self)
        requires
            old(self)@.namespaces.len() > 0,
        ensures
            final(self)@ == old(self)@.reselected(),
    {
        let place = match &self.scope {
            Some(name) => find_position(&self.namespaces, name.as_str()),
            None => Some(0),
        };
        match place {
            Some(i) => {
                self.ns_selected = Some(i);
            },
            None => {
                self.ns_selected = Some(0);
                self.scope = None;
            },
        }
        assert(self@ =~= old(self)@.reselected());
    }

    fn reload(&mut self)
        requires
            old(self)@.namespaces.len() > 0,
            old(self)@.page * PAGE_SIZE <= usize::MAX,
        ensures
            final(self)@ == old(self)@.reloaded(),
    {
        self.reselect();
        self.tasks_after = true;
        assert(self@ =~= AppView { tasks_after: true, ..old(self)@.reselected() });
        if self.active_query.is_some() {
            self.search();
        } else {
            let last: usize = number_of_last_page(self.total);
            proof {
                lemma_last_page(self.page as int, self.total as int);
            }
            if self.page < last {
                self.load_page(self.page);
            } else {
                self.load_page(last);
            }
        }
    }

    /// Takes the namespaces of a fresh snapshot. The scope is kept by name.
    pub fn on_namespaces(&mut self, read: Result<NamespaceRows, String>)
        requires
            old(self)@.wf(),
            old(self)@.pending == Pending::Namespaces,
            read matches Ok(rows) ==> rows.countable(),
        ensures
            match read {
                Ok(rows) => {
                    &&& lists(rows, final(self).namespaces@)
                    &&& final(self)@ == old(self)@.after_namespaces(Ok(final(self).namespaces@))
                },
                Err(e) => final(self)@ == old(self)@.after_namespaces(Err(e@)),
            },
            final(self)@.wf(),
    {
        match read {
            Ok(rows) => {
                self.namespaces = list_namespaces(&rows);
                assert(self@ =~= AppView { namespaces: self.namespaces@, ..old(self)@ });
            },
            Err(e) => {
                self.status = "refresh failed: ".to_owned().concat(e.as_str());
                assert(self@ =~= AppView { status: "refresh failed: "@ + e@, ..old(self)@ });
            },
        }
        proof {
            assert(self.namespaces@.len() == self.namespaces.len());
            lemma_reloaded(self@);
        }
        self.reload();
    }

    /// Takes the page that was asked for, with the number of all memories in
    /// scope.
    pub fn on_page(&mut self, read: Result<(Vec<Listed>, usize), String>)
        requires
            old(self)@.wf(),
            old(self)@.pending is Page,
        ensures
            final(self)@ == old(self)@.after_page(read),
            final(self)@.wf(),
    {
        let page: usize = match self.pending {
            Pending::Page(page) => page,
            _ => 0,
        };
        match read {
            Ok((memories, total)) => {
                self.memories = make_listing(memories);
                self.total = total;
                self.page = page;
                self.active_query = None;
                self.mem_selected = if self.memories.len() == 0 {
                    None
                } else {
                    Some(0)
                };
                let number = decimal_of(page as u64 + 1);
                let pages = decimal_of(number_of_last_page(total) as u64 + 1);
                self.status = decimal_of(total as u64).concat(" memories · page ").concat(
                    number.as_str(),
                ).concat("/").concat(pages.as_str());
                assert(self@ =~= AppView {
                    memories: listing_rows(memories@),
                    total,
                    page,
                    active_query: None,
                    mem_selected: first_of(memories@.len()),
                    status: page_status(total, page),
                    ..old(self)@
                });
            },
            Err(e) => {
                self.status = "list failed: ".to_owned().concat(e.as_str());
                assert(self@ =~= AppView { status: "list failed: "@ + e@, ..old(self)@ });
            },
        }
        proof {
            lemma_opened(self@);
        }
        self.open_selected();
    }

    /// Takes the outcome of embedding the query.
    pub fn on_embedded(&mut self, embedded: Result<(), String>)
        requires
            old(self)@.wf(),
            old(self)@.pending == Pending::Embedding,
        ensures
            final(self)@ == old(self)@.after_embedding(embedded),
            final(self)@.wf(),
    {
        match embedded {
            Ok(_) => {
                self.pending = Pending::Recall;
                assert(self@ =~= old(self)@.after_embedding(embedded));
            },
            Err(e) => {
                self.status = "embed failed: ".to_owned().concat(e.as_str());
                assert(self@ =~= AppView { status: "embed failed: "@ + e@, ..old(self)@ });
                self.finish_listing();
            },
        }
    }

    /// Takes the hits of the search.
    pub fn on_hits(&mut self, read: Result<Vec<Hit>, String>)
        requires
            old(self)@.wf(),
            old(self)@.pending == Pending::Recall,
        ensures
            final(self)@ == old(self)@.after_recall(read),
            final(self)@.wf(),
    {
        match read {
            Ok(hits) => {
                let query = trim(self.query.as_str());
                let n: usize = hits.len();
                self.memories = make_hits(hits);
                self.status = decimal_of(n as u64).concat(" hits for \"").concat(
                    query.as_str(),
                ).concat("\" (Esc clears)");
                self.active_query = Some(query);
                self.mem_selected = if n == 0 {
                    None
                } else {
                    Some(0)
                };
                assert(self@ =~= AppView {
                    memories: hit_rows(hits@),
                    status: hits_status(hits@.len(), trimmed(old(self)@.query)),
                    active_query: Some(trimmed(old(self)@.query)),
                    mem_selected: first_of(hits@.len()),
                    ..old(self)@
                });
                proof {
                    lemma_opened(self@);
                }
                self.open_selected();
            },
            Err(e) => {
                self.status = "search failed: ".to_owned().concat(e.as_str());
                assert(self@ =~= AppView { status: "search failed: "@ + e@, ..old(self)@ });
                self.finish_listing();
            },
        }
    }

    /// Takes the reads of the selected memory.
    pub fn on_inspection(&mut self, reads: &Reads)
        requires
            old(self)@.wf(),
            old(self)@.pending == Pending::Inspection,
            reads.is_datable(),
        ensures
            final(self)@ == old(self)@.after_inspection(*reads),
            final(self)@.wf(),
    {
        if let Some(i) = self.mem_selected {
            let ins = reads.inspect(self.memories[i].rid.as_str());
            self.inspector = Some(ins);
            assert(self@ =~= AppView {
                inspector: Some(reads.inspection(old(self)@.selected_rid()->0)),
                ..old(self)@
            });
        }
        self.finish_listing();
    }

    /// Takes the tasks of the namespace in scope.
    pub fn on_tasks(&mut self, read: &Result<Vec<TaskRow>, String>)
        requires
            old(self)@.wf(),
            old(self)@.pending == Pending::Tasks,
        ensures
            final(self)@ == old(self)@.after_tasks(*read),
            final(self)@.wf(),
    {
        self.tasks = describe_tasks(read);
        self.pending = Pending::Idle;
        assert(self@ =~= old(self)@.after_tasks(*read));
    }
}

// Laws ------------------------------------------------------------------

/// The panes form a ring: going on and going back undo each other, and three
/// steps lead around.
pub proof fn law_panes_form_a_ring(p: Pane, forward: bool)
    ensures
        neighbour(neighbour(p, forward), !forward) == p,
        neighbour(neighbour(neighbour(p, forward), forward), forward) == p,
        neighbour(p, forward) != p,
{
}

/// No read reinforces what it touches or goes beyond what it was asked for.
pub proof fn law_reads_leave_no_trace(v: AppView, request: Request)
    requires
        v.asks(request),
    ensures
        request matches Request::Recall { skip_reinforce, expand_entities, .. } ==> skip_reinforce
            && !expand_entities,
{
}

/// Every read of memories and tasks keeps to the namespace in scope.
pub proof fn law_reads_keep_to_the_scope(v: AppView, request: Request)
    requires
        v.asks(request),
    ensures
        match request {
            Request::List { namespace, .. } => optional(namespace) == v.scope,
            Request::Recall { namespace, .. } => optional(namespace) == v.scope,
            Request::Tasks { namespace } => Some(namespace@) == v.scope,
            _ => true,
        },
{
}

/// A refresh keeps the scope by its name and puts the cursor on it, wherever
/// it stands in the new list; a scope that is gone falls back to all.
pub proof fn law_refresh_keeps_the_scope_by_name(v: AppView, namespaces: Seq<(String, i64)>)
    requires
        v.wf(),
        v.pending == Pending::Namespaces,
        0 < namespaces.len() <= usize::MAX,
    ensures
        ({
            let w = v.after_namespaces(Ok(namespaces));
            &&& w.namespaces == namespaces
            &&& w.ns_selected matches Some(i) && i < namespaces.len() && match v.scope {
                Some(name) => if has_entry(namespaces, name) {
                    w.scope == Some(name) && namespaces[i as int].0@ == name
                } else {
                    w.scope is None && i == 0
                },
                None => w.scope is None && i == 0,
            }
        }),
{
    if let Some(name) = v.scope {
        lemma_position(namespaces, name, 0);
    }
}

/// Where search is disabled, a search reads no embedding and the status line
/// says why.
pub proof fn law_disabled_search_says_why(v: AppView)
    requires
        v.search_state is Disabled,
    ensures
        v.search_wanted().pending != Pending::Embedding,
        v.search_wanted().pending != Pending::Recall,
        trimmed(v.query).len() > 0 ==> {
            &&& v.search_wanted().status == v.search_state.note()
            &&& v.search_wanted().memories == v.memories
            &&& v.search_wanted().query.len() == 0
        },
{
}

/// A query is embedded and searched for only where search is ready.
pub proof fn law_search_needs_a_ready_model(v: AppView, request: Request)
    requires
        v.wf(),
        v.asks(request),
        request is Embed || request is Recall,
    ensures
        v.search_state is Ready,
{
}

/// The first memory of a page and the first hit of a search are selected and
/// opened; where nothing came, nothing is.
pub proof fn law_first_memory_is_opened(
    v: AppView,
    memories: Vec<Listed>,
    total: usize,
    hits: Vec<Hit>,
    request: Request,
)
    ensures
        v.pending is Page ==> {
            let w = v.after_page(Ok((memories, total)));
            &&& w.mem_selected == first_of(memories@.len())
            &&& w.inspector_scroll == 0
            &&& if memories@.len() > 0 {
                w.asks(request) ==> (request matches Request::Inspect { rid } && rid@
                    == memories@[0].rid@)
            } else {
                w.inspector is None
            }
        },
        v.pending == Pending::Recall ==> {
            let w = v.after_recall(Ok(hits));
            &&& w.mem_selected == first_of(hits@.len())
            &&& w.inspector_scroll == 0
            &&& if hits@.len() > 0 {
                w.asks(request) ==> (request matches Request::Inspect { rid } && rid@
                    == hits@[0].memory.rid@)
            } else {
                w.inspector is None
            }
        },
{
}

/// A listing holds no scores and belongs to no query; the hits of a search
/// all have their scores and belong to the query without its outer blanks.
pub proof fn law_scores_tell_searches_from_listings(
    v: AppView,
    memories: Vec<Listed>,
    total: usize,
    hits: Vec<Hit>,
)
    ensures
        v.pending is Page ==> {
            let w = v.after_page(Ok((memories, total)));
            &&& w.active_query is None
            &&& w.memories.len() == memories@.len()
            &&& forall|i: int| 0 <= i < w.memories.len() ==> (#[trigger] w.memories[i]).score is None
        },
        v.pending == Pending::Recall ==> {
            let w = v.after_recall(Ok(hits));
            &&& w.active_query == Some(trimmed(v.query))
            &&& w.memories.len() == hits@.len()
            &&& forall|i: int|
                0 <= i < w.memories.len() ==> (#[trigger] w.memories[i]).score == Some(
                    hits@[i].score,
                )
        },
{
}

/// Clearing a search asks for the first page of the same scope, and the page
/// that comes is a listing again.
pub proof fn law_clearing_restores_the_listing(
    v: AppView,
    key: Key,
    memories: Vec<Listed>,
    total: usize,
)
    requires
        v.wf(),
        v.pending == Pending::Idle,
        v.typing || v.active_query is Some,
        key.pressed,
        key.code == KeyCode::Esc,
    ensures
        ({
            let w = v.after_key(key);
            let listing = w.after_page(Ok((memories, total)));
            &&& w.pending == Pending::Page(0)
            &&& w.scope == v.scope
            &&& w.query.len() == 0
            &&& w.active_query is None
            &&& listing.memories == listing_rows(memories@)
            &&& listing.page == 0
        }),
{
}

/// The next page is asked for only where there is one.
pub proof fn law_pages_stay_in_range(v: AppView, key: Key)
    requires
        v.wf(),
        v.pending == Pending::Idle,
        !v.typing,
        key.pressed,
        key.code == KeyCode::Char('n'),
    ensures
        v.after_key(key).pending matches Pending::Page(page) ==> page == v.page + 1 && page
            * PAGE_SIZE < v.total,
        v.after_key(key).pending is Page <==> v.active_query is None && (v.page + 1) * PAGE_SIZE
            < v.total,
{
}

/// Going back a page leads to where going on came from.
pub proof fn law_paging_back_undoes_paging_on(
    v: AppView,
    on: Key,
    memories: Vec<Listed>,
    total: usize,
    w: AppView,
    back: Key,
)
    requires
        v.wf(),
        v.pending == Pending::Idle,
        !v.typing,
        on.pressed && on.code == KeyCode::Char('n'),
        back.pressed && back.code == KeyCode::Char('p'),
        v.after_key(on).pending is Page,
        // The explorer once the page, its selection and the tasks have come.
        w.page == v.after_key(on).after_page(Ok((memories, total))).page,
        w.active_query == v.after_key(on).after_page(Ok((memories, total))).active_query,
        !w.typing,
    ensures
        w.after_key(back).pending == Pending::Page(v.page),
{
}

/// Taking back a typed character restores the query.
pub proof fn law_backspace_undoes_typing(v: AppView, letter: Key, back: Key, c: char)
    requires
        v.typing,
        letter.pressed && letter.code == KeyCode::Char(c) && !letter.control,
        back.pressed && back.code == KeyCode::Backspace,
    ensures
        v.after_key(letter).after_key(back) == v,
{
    assert(v.query.push(c).drop_last() =~= v.query);
    assert(v.after_key(letter).after_key(back) =~= v);
}

/// While a query is typed no key ends the program, whatever it is.
pub proof fn law_typing_does_not_quit(v: AppView, key: Key)
    requires
        v.typing,
    ensures
        !v.quits(key),
{
}

/// A snapshot does not move: keys change nothing of what was read from it.
pub proof fn law_keys_do_not_move_the_snapshot(v: AppView, key: Key)
    requires
        v.wf(),
        v.pending == Pending::Idle,
    ensures
        ({
            let w = v.after_key(key);
            &&& w.store == v.store
            &&& w.namespaces == v.namespaces
            &&& w.memories == v.memories
            &&& w.total == v.total
            &&& w.page == v.page
            &&& w.tasks == v.tasks
            &&& w.snapshot_at == v.snapshot_at
            &&& w.search_state == v.search_state
        }),
{
}

/// A refresh that failed leaves every view as it was.
pub proof fn law_failed_refresh_changes_only_the_status(v: AppView, e: String)
    requires
        v.wf(),
        v.pending == Pending::Snapshot,
    ensures
        v.after_snapshot(Err(e)) == (AppView {
            status: "refresh failed: "@ + e@,
            pending: Pending::Idle,
            ..v
        }),
{
}

/// The answers still to come, at most.
pub open spec fn answers_left(p: Pending) -> nat {
    match p {
        Pending::Snapshot => 6,
        Pending::Namespaces => 5,
        Pending::Embedding => 4,
        Pending::Recall | Pending::Page(_) => 3,
        Pending::Inspection => 2,
        Pending::Tasks => 1,
        Pending::Idle => 0,
    }
}

/// The explorer comes to rest: every answer brings it nearer to waiting for a
/// key.
pub proof fn law_answers_come_to_an_end(
    v: AppView,
    taken: Result<(Double, SearchState), String>,
    namespaces: Result<Seq<(String, i64)>, Seq<char>>,
    page: Result<(Vec<Listed>, usize), String>,
    embedded: Result<(), String>,
    hits: Result<Vec<Hit>, String>,
    reads: Reads,
    tasks: Result<Vec<TaskRow>, String>,
)
    ensures
        match v.pending {
            Pending::Idle => true,
            Pending::Snapshot => answers_left(v.after_snapshot(taken).pending) < 6,
            Pending::Namespaces => answers_left(v.after_namespaces(namespaces).pending) < 5,
            Pending::Page(_) => answers_left(v.after_page(page).pending) < 3,
            Pending::Embedding => answers_left(v.after_embedding(embedded).pending) < 4,
            Pending::Recall => answers_left(v.after_recall(hits).pending) < 3,
            Pending::Inspection => answers_left(v.after_inspection(reads).pending) < 2,
            Pending::Tasks => answers_left(v.after_tasks(tasks).pending) < 1,
        },
{
}

/// Moving on and moving back leads to the same namespace, unless it was the
/// last one.
pub proof fn law_moving_back_undoes_moving_on(v: AppView)
    requires
        v.wf(),
        v.pane == Pane::Namespaces,
        v.ns_cursor() + 1 < v.namespaces.len() <= usize::MAX,
    ensures
        v.selection_moved(1).selection_moved(-1) == v,
{
    assert(v.selection_moved(1).selection_moved(-1) =~= v);
}

/// At rest the inspector shows the selected memory, and nothing where there
/// is none.
pub proof fn law_inspector_follows_the_selection(v: AppView)
    requires
        v.wf(),
        v.pending == Pending::Idle,
    ensures
        match v.mem_selected {
            Some(i) => i < v.memories.len() && v.inspector is Some && v.inspector->0.rid
                == v.memories[i as int].rid@,
            None => v.memories.len() == 0 && v.inspector is None,
        },
{
}

// What keys do ----------------------------------------------------------

/// Tab goes from the namespaces to the memories, to the inspector and around;
/// with shift it goes the other way. Nothing else changes.
pub proof fn law_tab_moves_between_panes(v: AppView, key: Key)
    requires
        v.wf(),
        v.pending == Pending::Idle,
        !v.typing,
        key.pressed,
        key.code == KeyCode::Tab || key.code == KeyCode::BackTab,
    ensures
        ({
            let w = v.after_key(key);
            &&& w == (AppView { pane: w.pane, ..v })
            &&& !v.quits(key)
            &&& key.code == KeyCode::Tab ==> w.pane == match v.pane {
                Pane::Namespaces => Pane::Memories,
                Pane::Memories => Pane::Inspector,
                Pane::Inspector => Pane::Namespaces,
            }
            &&& key.code == KeyCode::BackTab ==> w.pane == match v.pane {
                Pane::Namespaces => Pane::Inspector,
                Pane::Memories => Pane::Namespaces,
                Pane::Inspector => Pane::Memories,
            }
        }),
{
}

/// `q`, and `c` with control, end the program and change nothing; no other key
/// ends it, and a key that was not pressed does nothing.
pub proof fn law_what_ends_the_program(v: AppView, key: Key)
    requires
        v.wf(),
        v.pending == Pending::Idle,
    ensures
        v.quits(key) <==> key.pressed && !v.typing && (key.code == KeyCode::Char('q') || (key.code
            == KeyCode::Char('c') && key.control)),
        v.quits(key) ==> v.after_key(key) == v,
        !key.pressed ==> v.after_key(key) == v,
{
}

/// A slash starts a query in the list of memories; `r` asks for a fresh
/// snapshot. Nothing else changes.
pub proof fn law_slash_and_refresh(v: AppView, key: Key)
    requires
        v.wf(),
        v.pending == Pending::Idle,
        !v.typing,
        key.pressed,
    ensures
        key.code == KeyCode::Char('/') ==> v.after_key(key) == (AppView {
            typing: true,
            pane: Pane::Memories,
            ..v
        }),
        key.code == KeyCode::Char('r') ==> v.after_key(key) == (AppView {
            pending: Pending::Snapshot,
            ..v
        }),
{
}

/// `n` asks for the page behind the one shown where memories are left there,
/// `p` for the one in front of it where there is one, neither while a search is
/// shown. Nothing else changes.
pub proof fn law_paging(v: AppView, key: Key)
    requires
        v.wf(),
        v.pending == Pending::Idle,
        !v.typing,
        key.pressed,
        key.code == KeyCode::Char('n') || key.code == KeyCode::Char('p'),
    ensures
        ({
            let w = v.after_key(key);
            let on = key.code == KeyCode::Char('n') && v.active_query is None && 200 * (v.page + 1)
                < v.total;
            let back = key.code == KeyCode::Char('p') && v.active_query is None && v.page > 0;
            &&& w == (AppView { pending: w.pending, ..v })
            &&& on ==> (w.pending matches Pending::Page(page) && page == v.page + 1)
            &&& back ==> (w.pending matches Pending::Page(page) && page == v.page - 1)
            &&& !on && !back ==> w.pending == Pending::Idle
        }),
{
}

/// Down, up, `j` and `k` move the selection of the pane by one and stop at its
/// ends. In the list of memories the one that is reached is opened; in the
/// inspector the text scrolls by one line.
pub proof fn law_moving(v: AppView, key: Key)
    requires
        v.wf(),
        v.pending == Pending::Idle,
        !v.typing,
        key.pressed,
        key.code == KeyCode::Down || key.code == KeyCode::Up || key.code == KeyCode::Char('j')
            || key.code == KeyCode::Char('k'),
        v.namespaces.len() <= usize::MAX,
        v.memories.len() <= usize::MAX,
    ensures
        ({
            let w = v.after_key(key);
            let down = key.code == KeyCode::Down || key.code == KeyCode::Char('j');
            match v.pane {
                Pane::Namespaces => {
                    &&& w == (AppView { ns_selected: w.ns_selected, ..v })
                    &&& v.ns_selected matches Some(i) && w.ns_selected matches Some(j) && {
                        if down && i + 1 < v.namespaces.len() {
                            j == i + 1
                        } else if !down && i > 0 {
                            j == i - 1
                        } else {
                            j == i
                        }
                    }
                },
                Pane::Memories => match v.mem_selected {
                    None => w == v,
                    Some(i) => {
                        &&& w == (AppView {
                            mem_selected: w.mem_selected,
                            inspector_scroll: 0,
                            pending: Pending::Inspection,
                            ..v
                        })
                        &&& w.mem_selected matches Some(j) && {
                            if down && i + 1 < v.memories.len() {
                                j == i + 1
                            } else if !down && i > 0 {
                                j == i - 1
                            } else {
                                j == i
                            }
                        }
                    },
                },
                Pane::Inspector => {
                    &&& w == (AppView { inspector_scroll: w.inspector_scroll, ..v })
                    &&& down && v.inspector_scroll < u16::MAX ==> w.inspector_scroll
                        == v.inspector_scroll + 1
                    &&& !down && v.inspector_scroll > 0 ==> w.inspector_scroll
                        == v.inspector_scroll - 1
                    &&& down && v.inspector_scroll == u16::MAX ==> w.inspector_scroll == u16::MAX
                    &&& !down && v.inspector_scroll == 0 ==> w.inspector_scroll == 0
                },
            }
        }),
{
}

/// The selection moves by as many places as asked for and stops at the ends;
/// the inspector scrolls by one line whatever the distance.
pub proof fn law_moving_by(v: AppView, delta: int)
    requires
        v.wf(),
        v.namespaces.len() <= usize::MAX,
        v.memories.len() <= usize::MAX,
    ensures
        ({
            let w = v.selection_moved(delta);
            match v.pane {
                Pane::Namespaces => v.ns_selected matches Some(i) && w.ns_selected matches Some(j)
                    && {
                    &&& 0 <= i + delta < v.namespaces.len() ==> j == i + delta
                    &&& i + delta < 0 ==> j == 0
                    &&& i + delta >= v.namespaces.len() ==> j == v.namespaces.len() - 1
                    &&& w == (AppView { ns_selected: w.ns_selected, ..v })
                },
                Pane::Memories => v.mem_selected matches Some(i) ==> w.mem_selected matches Some(j)
                    && {
                    &&& 0 <= i + delta < v.memories.len() ==> j == i + delta
                    &&& i + delta < 0 ==> j == 0
                    &&& i + delta >= v.memories.len() ==> j == v.memories.len() - 1
                    &&& w.pending == Pending::Inspection
                },
                Pane::Inspector => {
                    &&& delta > 0 && v.inspector_scroll < u16::MAX ==> w.inspector_scroll
                        == v.inspector_scroll + 1
                    &&& delta <= 0 && v.inspector_scroll > 0 ==> w.inspector_scroll
                        == v.inspector_scroll - 1
                },
            }
        }),
{
}

/// The page keys scroll the inspector by ten lines, as far as there are any to
/// count, whatever pane the keys go to. Nothing else changes.
pub proof fn law_scrolling_by_pages(v: AppView, key: Key)
    requires
        v.wf(),
        v.pending == Pending::Idle,
        !v.typing,
        key.pressed,
        key.code == KeyCode::PageDown || key.code == KeyCode::PageUp,
    ensures
        ({
            let w = v.after_key(key);
            let (from, to) = (v.inspector_scroll as int, w.inspector_scroll as int);
            &&& w == (AppView { inspector_scroll: w.inspector_scroll, ..v })
            &&& key.code == KeyCode::PageDown ==> to == (if from <= u16::MAX - 10 {
                from + 10
            } else {
                u16::MAX as int
            })
            &&& key.code == KeyCode::PageUp ==> to == (if from >= 10 {
                from - 10
            } else {
                0
            })
        }),
{
}

/// Enter on a namespace puts it in scope by its name, every namespace where the
/// cursor is on the first entry, forgets the query, goes to the memories and
/// asks for their first page, with the tasks behind it.
pub proof fn law_enter_on_a_namespace(v: AppView, key: Key)
    requires
        v.wf(),
        v.pending == Pending::Idle,
        !v.typing,
        v.pane == Pane::Namespaces,
        key.pressed,
        key.code == KeyCode::Enter,
    ensures
        ({
            let w = v.after_key(key);
            &&& w == (AppView {
                scope: w.scope,
                query: Seq::empty(),
                pane: Pane::Memories,
                pending: Pending::Page(0),
                tasks_after: true,
                ..v
            })
            &&& v.ns_selected matches Some(i) && if i == 0 {
                w.scope is None
            } else {
                w.scope == Some(v.namespaces[i as int].0@)
            }
        }),
{
}

/// Enter on a memory opens it and goes to the inspector; in the inspector it
/// does nothing.
pub proof fn law_enter_on_a_memory(v: AppView, key: Key)
    requires
        v.wf(),
        v.pending == Pending::Idle,
        !v.typing,
        v.pane != Pane::Namespaces,
        key.pressed,
        key.code == KeyCode::Enter,
    ensures
        ({
            let w = v.after_key(key);
            if v.pane == Pane::Inspector {
                w == v
            } else if v.mem_selected is Some {
                w == (AppView {
                    pane: Pane::Inspector,
                    inspector_scroll: 0,
                    pending: Pending::Inspection,
                    ..v
                })
            } else {
                w == (AppView { pane: Pane::Inspector, inspector_scroll: 0, ..v })
            }
        }),
{
}

/// Escape clears a query that is typed or a search that is shown, and asks for
/// the first page; otherwise it does nothing.
pub proof fn law_escape(v: AppView, key: Key)
    requires
        v.wf(),
        v.pending == Pending::Idle,
        key.pressed,
        key.code == KeyCode::Esc,
    ensures
        v.after_key(key) == if v.typing || v.active_query is Some {
            AppView {
                typing: false,
                query: Seq::empty(),
                active_query: None,
                pending: Pending::Page(0),
                ..v
            }
        } else {
            v
        },
{
}

/// While a query is typed a character is added to its end, unless control is
/// held, Backspace takes the last one away, and Enter searches for it. No key
/// but these and Escape does anything then.
pub proof fn law_typing(v: AppView, key: Key)
    requires
        v.wf(),
        v.typing,
        key.pressed,
    ensures
        ({
            let w = v.after_key(key);
            match key.code {
                KeyCode::Char(c) => {
                    &&& w == (AppView { query: w.query, ..v })
                    &&& key.control ==> w.query == v.query
                    &&& !key.control ==> w.query.len() == v.query.len() + 1 && w.query.last() == c
                        && w.query.drop_last() == v.query
                },
                KeyCode::Backspace => {
                    &&& w == (AppView { query: w.query, ..v })
                    &&& v.query.len() == 0 ==> w.query.len() == 0
                    &&& v.query.len() > 0 ==> w.query == v.query.take(v.query.len() - 1)
                },
                KeyCode::Enter => w == AppView { typing: false, ..v }.search_wanted(),
                KeyCode::Esc => !w.typing,
                _ => w == v,
            }
        }),
{
    if key.code is Char {
        let c = key.code->Char_0;
        assert(v.query.push(c).drop_last() =~= v.query);
    }
    if v.query.len() > 0 {
        assert(v.query.drop_last() =~= v.query.take(v.query.len() - 1));
    }
}

/// Keys without a meaning do nothing.
pub proof fn law_other_keys_do_nothing(v: AppView, key: Key)
    requires
        v.wf(),
        v.pending == Pending::Idle,
        !v.typing,
        match key.code {
            KeyCode::Backspace | KeyCode::Other => true,
            KeyCode::Char(c) => c != '/' && c != 'r' && c != 'n' && c != 'p' && c != 'j' && c != 'k',
            _ => false,
        },
    ensures
        v.after_key(key) == v,
{
}

// What is read ----------------------------------------------------------

/// A search asks for the embedding of the query without its outer blanks; a
/// blank one lists the first page, and one that is disabled only says why. The
/// list that is shown stays until the answer comes.
pub proof fn law_searching(v: AppView, request: Request)
    requires
        v.at_rest(),
    ensures
        ({
            let w = v.search_wanted();
            let blank = trimmed(v.query).len() == 0;
            &&& w.memories == v.memories && w.active_query == v.active_query && w.scope == v.scope
                && w.inspector == v.inspector && w.mem_selected == v.mem_selected && w.tasks
                == v.tasks && w.pane == v.pane && w.total == v.total && w.page == v.page
            &&& blank ==> w.pending == Pending::Page(0) && w.query == v.query && w.status == v.status
            &&& !blank && v.search_state is Disabled ==> w.pending == Pending::Idle && w.status
                == v.search_state.note() && w.query.len() == 0
            &&& !blank && v.search_state is Ready ==> {
                &&& w.query == v.query && w.status == v.status
                &&& w.asks(request) ==> (request matches Request::Embed { text } && text@
                    == trimmed(v.query))
            }
        }),
{
}

/// Each read is the one that is waited for: a page of two hundred memories from
/// its place on, the newest first; the fifty memories nearest to the query; the
/// selected memory; the tasks of the scope.
pub proof fn law_requests_say_what_is_wanted(v: AppView, request: Request)
    requires
        v.wf(),
        v.asks(request),
    ensures
        match request {
            Request::Key => v.pending == Pending::Idle,
            Request::Snapshot => v.pending == Pending::Snapshot,
            Request::Namespaces => v.pending == Pending::Namespaces,
            Request::List { limit, offset, namespace, sort_by } => {
                &&& v.pending matches Pending::Page(page) && offset == 200 * page
                &&& limit == 200
                &&& sort_by@ == "created_at"@
                &&& match (namespace, v.scope) {
                    (Some(name), Some(scope)) => name@ == scope,
                    (None, None) => true,
                    _ => false,
                }
            },
            Request::Embed { text } => v.pending == Pending::Embedding && text@ == trimmed(v.query),
            Request::Recall { query, top_k, namespace, skip_reinforce, expand_entities } => {
                &&& v.pending == Pending::Recall
                &&& query@ == trimmed(v.query)
                &&& top_k == 50
                &&& skip_reinforce && !expand_entities
                &&& match (namespace, v.scope) {
                    (Some(name), Some(scope)) => name@ == scope,
                    (None, None) => true,
                    _ => false,
                }
            },
            Request::Inspect { rid } => v.pending == Pending::Inspection && (
            v.mem_selected matches Some(i) && rid@ == v.memories[i as int].rid@),
            Request::Tasks { namespace } => v.pending == Pending::Tasks && (
            v.scope matches Some(scope) && namespace@ == scope),
        },
{
}

/// The explorer starts on the list of memories of every namespace, with nothing
/// shown yet, and asks for the first page.
pub proof fn law_where_the_explorer_starts(
    store: Seq<char>,
    at: Double,
    state: SearchState,
    namespaces: Seq<(String, i64)>,
)
    ensures
        ({
            let v = AppView::started(store, at, state, namespaces);
            &&& v.store == store && v.snapshot_at == at && v.search_state == state && v.namespaces
                == namespaces
            &&& v.scope is None && v.ns_selected == Some(0usize) && v.pane == Pane::Memories
            &&& v.memories.len() == 0 && v.mem_selected is None && v.total == 0 && v.page == 0
            &&& v.query.len() == 0 && !v.typing && v.active_query is None
            &&& v.inspector is None && v.inspector_scroll == 0 && v.tasks.len() == 0
            &&& v.status.len() == 0
            &&& v.pending == Pending::Page(0) && v.tasks_after
        }),
{
}

// What answers do -------------------------------------------------------

/// What follows on the list of memories, where nothing of it is to be opened:
/// the tasks are read where that is due and a namespace is in scope, there are
/// none where it is due and none is, and otherwise a key is waited for.
pub open spec fn comes_to_tasks(v: AppView, w: AppView) -> bool {
    if !v.tasks_after {
        w.pending == Pending::Idle && w.tasks == v.tasks && !w.tasks_after
    } else if v.scope is Some {
        w.pending == Pending::Tasks && w.tasks == v.tasks && !w.tasks_after
    } else {
        w.pending == Pending::Idle && w.tasks.len() == 0 && !w.tasks_after
    }
}

/// A fresh snapshot is the one explored from then on, and its namespaces are
/// asked for; nothing else changes.
pub proof fn law_a_fresh_snapshot_is_read_from_its_namespaces(
    v: AppView,
    at: Double,
    state: SearchState,
)
    requires
        v.wf(),
        v.pending == Pending::Snapshot,
    ensures
        v.after_snapshot(Ok((at, state))) == (AppView {
            snapshot_at: at,
            search_state: state,
            pending: Pending::Namespaces,
            ..v
        }),
{
}

/// A refresh makes a search that is shown again: where a query is active, not
/// blank, and search is ready, its embedding is asked for and the search stays
/// active. A page is asked for only where no query is active or it is blank.
pub proof fn law_refresh_searches_again(
    v: AppView,
    read: Result<Seq<(String, i64)>, Seq<char>>,
    request: Request,
)
    requires
        v.wf(),
        v.pending == Pending::Namespaces,
    ensures
        ({
            let w = v.after_namespaces(read);
            let blank = trimmed(v.query).len() == 0;
            &&& v.active_query is Some && !blank && v.search_state is Ready ==> {
                &&& w.pending == Pending::Embedding
                &&& w.active_query == v.active_query
                &&& w.query == v.query
                &&& w.asks(request) ==> (request matches Request::Embed { text } && text@
                    == trimmed(v.query))
            }
            &&& v.active_query is Some && !blank && v.search_state is Disabled ==> {
                &&& w.status == v.search_state.note()
                &&& w.query.len() == 0
                &&& !(w.pending is Page)
            }
            &&& v.active_query is Some && blank ==> w.pending == Pending::Page(0)
            &&& w.pending is Page ==> v.active_query is None || blank
            &&& w.asks(request) && request is List ==> v.active_query is None || blank
        }),
{
}

/// A refresh of a listing asks for the page that was shown, or for the last one
/// that there was where the page lies behind it.
pub proof fn law_refresh_stays_on_the_page(
    v: AppView,
    read: Result<Seq<(String, i64)>, Seq<char>>,
)
    requires
        v.wf(),
        v.pending == Pending::Namespaces,
        v.active_query is None,
    ensures
        v.after_namespaces(read).pending matches Pending::Page(page) && {
            &&& page <= v.page
            &&& page == 0 || 200 * page < v.total
            &&& page == v.page || 200 * (page + 1) >= v.total
        },
{
    lemma_last_page(v.page as int, v.total as int);
}

/// A refresh shows the new namespaces, or why there are none with the old ones
/// kept, and reads the tasks anew; until the memories come, they and what is
/// open stay as they are.
pub proof fn law_refresh_keeps_what_is_shown(
    v: AppView,
    read: Result<Seq<(String, i64)>, Seq<char>>,
)
    requires
        v.wf(),
        v.pending == Pending::Namespaces,
    ensures
        ({
            let w = v.after_namespaces(read);
            &&& match read {
                Ok(namespaces) => w.namespaces == namespaces,
                Err(_) => w.namespaces == v.namespaces,
            }
            &&& (read matches Err(e) && w.pending != Pending::Tasks && w.pending != Pending::Idle)
                ==> w.status == "refresh failed: "@ + read->Err_0
            &&& read is Ok && w.pending != Pending::Tasks && w.pending != Pending::Idle ==> w.status
                == v.status
            &&& w.pending != Pending::Tasks && w.pending != Pending::Idle ==> w.query == v.query
                && w.tasks == v.tasks
            &&& read is Err ==> w.scope == v.scope
            &&& w.memories == v.memories && w.mem_selected == v.mem_selected && w.total == v.total
                && w.page == v.page && w.inspector == v.inspector && w.inspector_scroll
                == v.inspector_scroll
            &&& w.active_query == v.active_query && w.pane == v.pane && w.typing == v.typing
                && w.store == v.store && w.snapshot_at == v.snapshot_at && w.search_state
                == v.search_state
            &&& w.tasks_after || w.pending == Pending::Tasks || (w.pending == Pending::Idle
                && w.tasks.len() == 0 && w.scope is None)
        }),
{
    if let Some(name) = v.scope {
        lemma_position(v.namespaces, name, 0);
    }
}

/// A page that comes is shown memory by memory, each row with what the store
/// says of its memory and without a score. The status line counts the memories
/// and the pages, of which each but the last holds two hundred.
pub proof fn law_a_page_is_shown(v: AppView, page: usize, memories: Vec<Listed>, total: usize)
    requires
        v.wf(),
        v.pending == Pending::Page(page),
    ensures
        ({
            let w = v.after_page(Ok((memories, total)));
            &&& w.memories.len() == memories@.len()
            &&& forall|i: int|
                0 <= i < memories@.len() ==> {
                    &&& (#[trigger] w.memories[i]).rid@ == memories@[i].rid@
                    &&& w.memories[i].text@ == memories@[i].text@
                    &&& w.memories[i].memory_type@ == memories@[i].memory_type@
                    &&& w.memories[i].importance == memories@[i].importance
                    &&& w.memories[i].created_at == memories@[i].created_at
                    &&& w.memories[i].score is None
                }
            &&& w.total == total
            &&& w.page == page
            &&& w.active_query is None
            &&& exists|pages: nat|
                {
                    &&& pages >= 1
                    &&& total <= 200 * pages
                    &&& pages == 1 || 200 * (pages - 1) < total
                    &&& w.status == decimal(total as nat) + " memories · page "@ + decimal(
                        (page + 1) as nat,
                    ) + "/"@ + #[trigger] decimal(pages)
                }
            &&& w.query == v.query && w.scope == v.scope && w.namespaces == v.namespaces
                && w.ns_selected == v.ns_selected && w.pane == v.pane && w.search_state
                == v.search_state && w.snapshot_at == v.snapshot_at && w.store == v.store
                && w.typing == v.typing
        }),
{
    lemma_last_page(page as int, total as int);
    let pages = (last_page(total as int) + 1) as nat;
    assert(decimal(pages) == decimal(pages));
}

/// A page that does not come leaves the list and says why; what is selected is
/// opened anew.
pub proof fn law_a_page_that_fails_leaves_the_list(v: AppView, e: String)
    requires
        v.wf(),
        v.pending is Page,
    ensures
        ({
            let w = v.after_page(Err(e));
            &&& w.status == "list failed: "@ + e@
            &&& w.memories == v.memories && w.mem_selected == v.mem_selected && w.total == v.total
                && w.page == v.page && w.active_query == v.active_query && w.query == v.query
                && w.scope == v.scope && w.namespaces == v.namespaces && w.ns_selected
                == v.ns_selected && w.pane == v.pane
            &&& w.inspector_scroll == 0
            &&& if v.mem_selected is Some {
                w.pending == Pending::Inspection && w.tasks_after == v.tasks_after
            } else {
                w.inspector is None && comes_to_tasks(v, w)
            }
        }),
{
}

/// The hits that come are shown one by one, each row with what the store says
/// of its memory and with its score. The status line counts them and names the
/// query, which is the one that is active from then on.
pub proof fn law_hits_are_shown(v: AppView, hits: Vec<Hit>)
    requires
        v.wf(),
        v.pending == Pending::Recall,
    ensures
        ({
            let w = v.after_recall(Ok(hits));
            &&& w.memories.len() == hits@.len()
            &&& forall|i: int|
                0 <= i < hits@.len() ==> {
                    &&& (#[trigger] w.memories[i]).rid@ == hits@[i].memory.rid@
                    &&& w.memories[i].text@ == hits@[i].memory.text@
                    &&& w.memories[i].memory_type@ == hits@[i].memory.memory_type@
                    &&& w.memories[i].importance == hits@[i].memory.importance
                    &&& w.memories[i].created_at == hits@[i].memory.created_at
                    &&& w.memories[i].score == Some(hits@[i].score)
                }
            &&& w.active_query == Some(trimmed(v.query))
            &&& w.status == decimal(hits@.len()) + " hits for \""@ + trimmed(v.query)
                + "\" (Esc clears)"@
            &&& w.query == v.query && w.scope == v.scope && w.namespaces == v.namespaces
                && w.ns_selected == v.ns_selected && w.pane == v.pane && w.search_state
                == v.search_state && w.snapshot_at == v.snapshot_at && w.store == v.store
                && w.typing == v.typing && w.total == v.total && w.page == v.page
        }),
{
}

/// A search that fails leaves the list and its query, and says what failed and
/// why.
pub proof fn law_a_search_that_fails_leaves_the_list(v: AppView, e: String)
    requires
        v.wf(),
    ensures
        v.pending == Pending::Embedding ==> {
            let w = v.after_embedding(Err(e));
            &&& w.status == "embed failed: "@ + e@
            &&& w == (AppView {
                status: w.status,
                pending: w.pending,
                tasks: w.tasks,
                tasks_after: w.tasks_after,
                ..v
            })
            &&& comes_to_tasks(v, w)
        },
        v.pending == Pending::Recall ==> {
            let w = v.after_recall(Err(e));
            &&& w.status == "search failed: "@ + e@
            &&& w == (AppView {
                status: w.status,
                pending: w.pending,
                tasks: w.tasks,
                tasks_after: w.tasks_after,
                ..v
            })
            &&& comes_to_tasks(v, w)
        },
        v.pending == Pending::Embedding ==> v.after_embedding(Ok(())) == (AppView {
            pending: Pending::Recall,
            ..v
        }),
{
}

/// The reads of the selected memory open it in the inspector under its id, with
/// its text, the names linked to it, and a line for each claim and revision.
/// Nothing else changes but that the tasks follow where they are due.
pub proof fn law_the_selected_memory_is_opened(v: AppView, reads: Reads)
    requires
        v.wf(),
        v.pending == Pending::Inspection,
    ensures
        ({
            let w = v.after_inspection(reads);
            &&& w == (AppView {
                inspector: w.inspector,
                pending: w.pending,
                tasks: w.tasks,
                tasks_after: w.tasks_after,
                ..v
            })
            &&& comes_to_tasks(v, w)
            &&& v.mem_selected matches Some(i) && w.inspector matches Some(ins) && {
                &&& ins.rid == v.memories[i as int].rid@
                &&& reads.record matches Ok(Some(m)) ==> ins.text == m.text@
                &&& !(reads.record matches Ok(Some(_))) ==> ins.text.len() == 0
                &&& reads.entities matches Ok(names) ==> ins.entities.len() == names@.len()
                    && forall|k: int|
                    0 <= k < names@.len() ==> #[trigger] ins.entities[k] == names@[k]@
                &&& reads.entities is Err ==> ins.entities.len() == 0
                &&& reads.claims matches Ok(claims) ==> ins.claims.len() == claims@.len()
                &&& reads.revisions matches Ok(revisions) ==> ins.revisions.len()
                    == revisions@.len()
            }
        }),
{
}

/// The tasks that come are shown one by one, each with its status, title and
/// priority; where they could not be read one line says why. Then a key is
/// waited for, and nothing else changes.
pub proof fn law_tasks_are_shown(v: AppView, read: Result<Vec<TaskRow>, String>)
    requires
        v.wf(),
        v.pending == Pending::Tasks,
    ensures
        ({
            let w = v.after_tasks(read);
            &&& w == (AppView { tasks: w.tasks, pending: Pending::Idle, ..v })
            &&& match read {
                Ok(tasks) => w.tasks.len() == tasks@.len() && forall|i: int|
                    0 <= i < tasks@.len() ==> #[trigger] w.tasks[i] == "["@ + tasks@[i].status@
                        + "] "@ + tasks@[i].title@ + " · "@ + tasks@[i].priority@,
                Err(e) => w.tasks.len() == 1 && w.tasks[0] == "tasks unavailable: "@ + e@,
            }
        }),
{
}

/// Opening what is selected asks for the selected memory and shows it from its
/// start; where nothing is selected the inspector is emptied.
pub proof fn law_opening_the_selection(v: AppView)
    requires
        v.at_rest(),
    ensures
        v.opened() == if v.mem_selected is Some {
            AppView { inspector_scroll: 0, pending: Pending::Inspection, ..v }
        } else {
            AppView { inspector_scroll: 0, inspector: None, ..v }
        },
        v.activated() == v.after_key(Key { code: KeyCode::Enter, control: false, pressed: true }),
        v.tasks_wanted() == if v.scope is Some {
            AppView { pending: Pending::Tasks, ..v }
        } else {
            AppView { tasks: Seq::empty(), ..v }
        },
        forall|page: usize| #[trigger]
            v.page_wanted(page) == (AppView { pending: Pending::Page(page), ..v }),
{
}

} // verus!
