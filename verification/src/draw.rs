//! The lines of the screen, pane by pane.

use vstd::prelude::*;
use vstd::utf8::encode_utf8;

use crate::calendar::{clock_text, day_text, fmt_day, has_day, in_calendar};
use crate::explorer::{App, AppView, MemoryRow, Pane};
use crate::fixed::{fixed, fixed_text};
use crate::inspector::{Inspector, InspectorView};
use crate::screen::{no_lines, push_line, shown, texts, Line, Tone};
use crate::text::{
    can_cut, clipped, cut, cuts_whole, decimal, decimal_of, first_line,
    law_padding_keeps_the_text, leading_bytes, leading_line, lines, lines_of, pad_left, pad_right, push_padded_left, push_padded_right,
    signed_decimal, signed_decimal_of,
};

verus! {

/// The contents of a line.
pub type Shown = Seq<(Seq<char>, Tone)>;

/// The contents of a line of one run of text.
pub open spec fn one(text: Seq<char>, tone: Tone) -> Shown {
    seq![(text, tone)]
}

/// The contents of a line without text.
pub open spec fn blank() -> Shown {
    Seq::empty()
}

// The title and the footer ----------------------------------------------

/// The title: the program, the store, the snapshot and the keys.
pub open spec fn title(v: AppView) -> Shown {
    seq![
        ("yantrikdb"@, Tone::Bold),
        ("  "@, Tone::Plain),
        (v.store, Tone::Dim),
        ("  "@, Tone::Plain),
        ("snapshot "@ + clock_text(v.snapshot_at) + " · "@ + v.search_state.note(), Tone::Dim),
        ("  · "@, Tone::Plain),
        (
            "Tab panes · ↑↓ move · Enter open · / search · Esc clear · n/p page · PgUp/PgDn scroll · r refresh · q quit"@,
            Tone::Dim,
        ),
    ]
}

/// Makes the title.
pub fn draw_title(app: &App) -> (r: Line)
    ensures
        r@ == title(app@),
{
    let mut line = Line::new();
    line.push("yantrikdb", Tone::Bold);
    line.push("  ", Tone::Plain);
    line.push(app.store.as_str(), Tone::Dim);
    line.push("  ", Tone::Plain);
    line.push(app.header_note().as_str(), Tone::Dim);
    line.push("  · ", Tone::Plain);
    line.push(
        "Tab panes · ↑↓ move · Enter open · / search · Esc clear · n/p page · PgUp/PgDn scroll · r refresh · q quit",
        Tone::Dim,
    );
    assert(line@ =~= title(app@));
    line
}

/// Makes the footer: the status line.
pub fn draw_footer(app: &App) -> (r: Line)
    ensures
        r@ == one(app@.status, Tone::Dim),
{
    Line::of(app.status.as_str(), Tone::Dim)
}

/// Whether the keys go to `pane`.
pub fn has_focus(app: &App, pane: Pane) -> (r: bool)
    ensures
        r == (app@.pane == pane),
{
    app.pane == pane
}

// Namespaces ------------------------------------------------------------

/// A namespace and the number of its memories, in columns.
pub open spec fn namespace_line(name: Seq<char>, n: i64) -> Shown {
    seq![
        (pad_right(name, 14), Tone::Plain),
        (pad_left(signed_decimal(n as int), ' ', 6), Tone::Dim),
    ]
}

/// The list of namespaces.
pub open spec fn namespace_lines(v: AppView) -> Seq<Shown> {
    v.namespaces.map_values(|e: (String, i64)| namespace_line(e.0@, e.1))
}

/// Makes the list of namespaces.
pub fn draw_namespaces(app: &App) -> (r: Vec<Line>)
    ensures
        shown(r@) == namespace_lines(app@),
{
    let ghost all = namespace_lines(app@);
    let mut out = no_lines();
    let mut i: usize = 0;
    assert(all.take(0) =~= Seq::empty());
    while i < app.namespaces.len()
        invariant
            i <= app.namespaces.len(),
            all == namespace_lines(app@),
            shown(out@) == all.take(i as int),
        decreases app.namespaces.len() - i,
    {
        let entry = &app.namespaces[i];
        let mut name = String::new();
        push_padded_right(&mut name, entry.0.as_str(), 14);
        let mut count = String::new();
        push_padded_left(&mut count, signed_decimal_of(entry.1).as_str(), ' ', 6);
        let mut line = Line::new();
        line.push(name.as_str(), Tone::Plain);
        line.push(count.as_str(), Tone::Dim);
        proof {
            assert(name@ =~= pad_right(entry.0@, 14));
            assert(count@ =~= pad_left(signed_decimal(entry.1 as int), ' ', 6));
            assert(line@ =~= all[i as int]);
            assert(all.take(i + 1) =~= all.take(i as int).push(all[i as int]));
        }
        push_line(&mut out, line);
        i += 1;
    }
    assert(all.take(i as int) =~= all);
    out
}

// Memories --------------------------------------------------------------

impl MemoryRow {
    /// Whether the row can be shown: its type starts with a letter of one
    /// byte, or is empty, and the calendar reaches the time of a listing row.
    pub open spec fn is_drawable(self) -> bool {
        &&& cuts_whole(self.memory_type@, 1)
        &&& self.score is None ==> in_calendar(self.created_at)
    }

    /// What stands in front of the text: the score of a hit, the day of a
    /// listing row.
    pub open spec fn lead(self) -> Seq<char> {
        match self.score {
            Some(s) => fixed_text(s, 2) + " "@,
            None => day_text(self.created_at) + " "@,
        }
    }

    /// What stands behind the text: the first letter of the type, and the
    /// importance.
    pub open spec fn tail(self) -> Seq<char> {
        " "@ + leading_bytes(self.memory_type@, 1) + fixed_text(self.importance, 1)
    }

    /// The characters that are left for the text in a pane of `width`
    /// columns, with its border.
    pub open spec fn room(self, width: int) -> nat {
        let left = width - 4 - encode_utf8(self.lead()).len() - 6;
        if width <= 4 || left < 0 {
            0
        } else {
            left as nat
        }
    }

    /// The row in a pane of `width` columns.
    pub open spec fn line(self, width: int) -> Shown {
        seq![
            (self.lead(), Tone::Dim),
            (clipped(leading_line(self.text@), self.room(width)), Tone::Plain),
            (self.tail(), Tone::Dim),
        ]
    }
}

/// Whether all rows can be shown.
pub open spec fn rows_drawable(rows: Seq<MemoryRow>) -> bool {
    forall|i: int| 0 <= i < rows.len() ==> (#[trigger] rows[i]).is_drawable()
}

/// Whether all memories of the list can be shown.
pub fn can_draw_memories(app: &App) -> (r: bool)
    ensures
        r == rows_drawable(app@.memories),
{
    let mut i: usize = 0;
    while i < app.memories.len()
        invariant
            i <= app.memories.len(),
            forall|j: int| 0 <= j < i ==> (#[trigger] app.memories@[j]).is_drawable(),
        decreases app.memories.len() - i,
    {
        let m = &app.memories[i];
        if !can_cut(m.memory_type.as_str(), 1) || (m.score.is_none() && !has_day(&m.created_at)) {
            assert(!app.memories@[i as int].is_drawable());
            return false;
        }
        i += 1;
    }
    true
}

fn draw_row(m: &MemoryRow, width: u16) -> (r: Line)
    requires
        m.is_drawable(),
    ensures
        r@ == m.line(width as int),
{
    let lead = match &m.score {
        Some(s) => fixed(s, 2),
        None => fmt_day(&m.created_at),
    }.concat(" ");
    let used: usize = lead.as_str().as_bytes().len();
    let inner: usize = if width > 4 {
        width as usize - 4
    } else {
        0
    };
    let room: usize = if inner >= 6 && used <= inner - 6 {
        inner - 6 - used
    } else {
        0
    };
    let text = first_line(m.text.as_str(), room);
    let tail = " ".to_owned().concat(cut(m.memory_type.as_str(), 1)).concat(
        fixed(&m.importance, 1).as_str(),
    );
    let mut line = Line::new();
    line.push(lead.as_str(), Tone::Dim);
    line.push(text.as_str(), Tone::Plain);
    line.push(tail.as_str(), Tone::Dim);
    assert(line@ =~= m.line(width as int));
    line
}

/// The list of memories in a pane of `width` columns.
pub open spec fn memory_lines(v: AppView, width: int) -> Seq<Shown> {
    v.memories.map_values(|m: MemoryRow| m.line(width))
}

/// Makes the list of memories for a pane of `width` columns.
pub fn draw_memories(app: &App, width: u16) -> (r: Vec<Line>)
    requires
        rows_drawable(app@.memories),
    ensures
        shown(r@) == memory_lines(app@, width as int),
{
    let ghost all = memory_lines(app@, width as int);
    let mut out = no_lines();
    let mut i: usize = 0;
    assert(all.take(0) =~= Seq::empty());
    while i < app.memories.len()
        invariant
            i <= app.memories.len(),
            rows_drawable(app@.memories),
            all == memory_lines(app@, width as int),
            shown(out@) == all.take(i as int),
        decreases app.memories.len() - i,
    {
        let line = draw_row(&app.memories[i], width);
        assert(all.take(i + 1) =~= all.take(i as int).push(all[i as int]));
        push_line(&mut out, line);
        i += 1;
    }
    assert(all.take(i as int) =~= all);
    out
}

/// The title of the list of memories.
pub open spec fn memories_title(v: AppView) -> Seq<char> {
    if v.typing {
        " search: "@ + v.query + "▏ "@
    } else if let Some(q) = v.active_query {
        " search: "@ + q + " "@
    } else {
        " memories · newest first "@
    }
}

/// Makes the title of the list of memories.
pub fn title_memories(app: &App) -> (r: String)
    ensures
        r@ == memories_title(app@),
{
    if app.typing {
        " search: ".to_owned().concat(app.query.as_str()).concat("▏ ")
    } else if let Some(q) = &app.active_query {
        " search: ".to_owned().concat(q.as_str()).concat(" ")
    } else {
        " memories · newest first ".to_owned()
    }
}

// The inspector ---------------------------------------------------------

/// `list` in one text, with `sep` between.
pub open spec fn joined(list: Seq<Seq<char>>, sep: Seq<char>) -> Seq<char>
    decreases list.len(),
{
    if list.len() == 0 {
        Seq::empty()
    } else if list.len() == 1 {
        list[0]
    } else {
        joined(list.drop_last(), sep) + sep + list.last()
    }
}

fn join(list: &Vec<String>, sep: &str) -> (r: String)
    ensures
        r@ == joined(texts(list@), sep@),
{
    let ghost all = texts(list@);
    let mut out = String::new();
    let mut i: usize = 0;
    while i < list.len()
        invariant
            i <= list.len(),
            all == texts(list@),
            out@ == joined(all.take(i as int), sep@),
        decreases list.len() - i,
    {
        assert(all.take(i + 1).drop_last() =~= all.take(i as int));
        if i > 0 {
            out.append(sep);
        }
        out.append(list[i].as_str());
        i += 1;
        assert(out@ =~= joined(all.take(i as int), sep@));
    }
    assert(all.take(i as int) =~= all);
    out
}

/// Each text in a line of its own.
pub open spec fn plain_lines(list: Seq<Seq<char>>) -> Seq<Shown> {
    list.map_values(|t: Seq<char>| one(t, Tone::Plain))
}

/// Each text in a line of its own, behind a bullet.
pub open spec fn bullet_lines(list: Seq<Seq<char>>) -> Seq<Shown> {
    list.map_values(|t: Seq<char>| one("• "@ + t, Tone::Plain))
}

/// The lines of one text, the first behind a bullet.
pub open spec fn bulleted(text: Seq<char>) -> Seq<Shown> {
    Seq::new(
        lines(text).len(),
        |i: int|
            one(
                if i == 0 {
                    "• "@ + lines(text)[i]
                } else {
                    lines(text)[i]
                },
                Tone::Plain,
            ),
    )
}

/// The lines of all texts, the first of each behind a bullet.
pub open spec fn all_bulleted(list: Seq<Seq<char>>) -> Seq<Shown>
    decreases list.len(),
{
    if list.len() == 0 {
        Seq::empty()
    } else {
        all_bulleted(list.drop_last()) + bulleted(list.last())
    }
}

/// The head of a section and the number of its entries.
pub open spec fn section(name: Seq<char>, n: nat) -> Shown {
    one(name + " · "@ + decimal(n), Tone::Head)
}

/// The lines of the inspector.
pub open spec fn inspection_lines(ins: InspectorView) -> Seq<Shown> {
    ins.header + seq![blank()] + plain_lines(lines(ins.text)) + seq![
        blank(),
        section("ENTITIES"@, ins.entities.len()),
        if ins.entities.len() == 0 {
            one("none linked"@, Tone::Dim)
        } else {
            one(joined(ins.entities, " · "@), Tone::Plain)
        },
        blank(),
        section("CLAIMS BACKED BY THIS MEMORY"@, ins.claims.len()),
    ] + (if ins.claims.len() == 0 {
        seq![one("none active"@, Tone::Dim)]
    } else {
        bullet_lines(ins.claims)
    }) + seq![blank(), section("REVISION HISTORY"@, ins.revisions.len())] + if ins.revisions.len()
        == 0 {
        seq![one("never corrected"@, Tone::Dim)]
    } else {
        all_bulleted(ins.revisions)
    }
}

/// The lines of the inspector pane.
pub open spec fn inspector_lines(v: AppView) -> Seq<Shown> {
    match v.inspector {
        None => seq![one("select a memory"@, Tone::Dim)],
        Some(ins) => inspection_lines(ins),
    }
}

fn push_plain(out: &mut Vec<Line>, list: &Vec<String>)
    ensures
        shown(final(out)@) == shown(old(out)@) + plain_lines(texts(list@)),
{
    let ghost all = plain_lines(texts(list@));
    let mut i: usize = 0;
    assert(shown(out@) =~= shown(old(out)@) + all.take(0));
    while i < list.len()
        invariant
            i <= list.len(),
            all == plain_lines(texts(list@)),
            shown(out@) == shown(old(out)@) + all.take(i as int),
        decreases list.len() - i,
    {
        push_line(out, Line::of(list[i].as_str(), Tone::Plain));
        i += 1;
        assert(shown(out@) =~= shown(old(out)@) + all.take(i as int));
    }
    assert(all.take(i as int) =~= all);
}

fn push_bullets(out: &mut Vec<Line>, list: &Vec<String>)
    ensures
        shown(final(out)@) == shown(old(out)@) + bullet_lines(texts(list@)),
{
    let ghost all = bullet_lines(texts(list@));
    let mut i: usize = 0;
    assert(shown(out@) =~= shown(old(out)@) + all.take(0));
    while i < list.len()
        invariant
            i <= list.len(),
            all == bullet_lines(texts(list@)),
            shown(out@) == shown(old(out)@) + all.take(i as int),
        decreases list.len() - i,
    {
        let text = "• ".to_owned().concat(list[i].as_str());
        push_line(out, Line::of(text.as_str(), Tone::Plain));
        i += 1;
        assert(shown(out@) =~= shown(old(out)@) + all.take(i as int));
    }
    assert(all.take(i as int) =~= all);
}

fn push_bulleted(out: &mut Vec<Line>, text: &str)
    ensures
        shown(final(out)@) == shown(old(out)@) + bulleted(text@),
{
    let parts = lines_of(text);
    let ghost all = bulleted(text@);
    let mut i: usize = 0;
    assert(parts@.len() == lines(text@).len());
    assert(shown(out@) =~= shown(old(out)@) + all.take(0));
    while i < parts.len()
        invariant
            i <= parts.len(),
            parts@.map_values(|l: String| l@) == lines(text@),
            parts@.len() == lines(text@).len(),
            all == bulleted(text@),
            shown(out@) == shown(old(out)@) + all.take(i as int),
        decreases parts.len() - i,
    {
        assert(parts@.map_values(|l: String| l@)[i as int] == parts@[i as int]@);
        if i == 0 {
            let text = "• ".to_owned().concat(parts[i].as_str());
            push_line(out, Line::of(text.as_str(), Tone::Plain));
        } else {
            push_line(out, Line::of(parts[i].as_str(), Tone::Plain));
        }
        i += 1;
        assert(shown(out@) =~= shown(old(out)@) + all.take(i as int));
    }
    assert(all.take(i as int) =~= all);
}

fn push_all_bulleted(out: &mut Vec<Line>, list: &Vec<String>)
    ensures
        shown(final(out)@) == shown(old(out)@) + all_bulleted(texts(list@)),
{
    let ghost all = texts(list@);
    let mut i: usize = 0;
    assert(shown(out@) =~= shown(old(out)@) + all_bulleted(all.take(0)));
    while i < list.len()
        invariant
            i <= list.len(),
            all == texts(list@),
            shown(out@) == shown(old(out)@) + all_bulleted(all.take(i as int)),
        decreases list.len() - i,
    {
        push_bulleted(out, list[i].as_str());
        i += 1;
        assert(all.take(i as int).drop_last() =~= all.take(i - 1));
        assert(shown(out@) =~= shown(old(out)@) + all_bulleted(all.take(i as int)));
    }
    assert(all.take(i as int) =~= all);
}

fn push_section(out: &mut Vec<Line>, name: &str, n: usize)
    ensures
        shown(final(out)@) == shown(old(out)@).push(section(name@, n as nat)),
{
    let text = name.to_owned().concat(" · ").concat(decimal_of(n as u64).as_str());
    push_line(out, Line::of(text.as_str(), Tone::Head));
}

fn draw_inspection(ins: &Inspector) -> (r: Vec<Line>)
    ensures
        shown(r@) == inspection_lines(ins@),
{
    let mut out = no_lines();
    let mut i: usize = 0;
    assert(ins@.header.take(0) =~= Seq::empty());
    while i < ins.header.len()
        invariant
            i <= ins.header.len(),
            shown(out@) == ins@.header.take(i as int),
        decreases ins.header.len() - i,
    {
        push_line(&mut out, ins.header[i].copy());
        assert(ins@.header.take(i + 1) =~= ins@.header.take(i as int).push(
            ins@.header[i as int],
        ));
        i += 1;
    }
    assert(ins@.header.take(i as int) =~= ins@.header);
    push_line(&mut out, Line::new());
    let text = lines_of(ins.text.as_str());
    push_plain(&mut out, &text);
    let ghost front = ins@.header + seq![blank()] + plain_lines(lines(ins@.text));
    assert(shown(out@) =~= front);
    push_line(&mut out, Line::new());
    push_section(&mut out, "ENTITIES", ins.entities.len());
    if ins.entities.len() == 0 {
        push_line(&mut out, Line::of("none linked", Tone::Dim));
    } else {
        push_line(&mut out, Line::of(join(&ins.entities, " · ").as_str(), Tone::Plain));
    }
    push_line(&mut out, Line::new());
    push_section(&mut out, "CLAIMS BACKED BY THIS MEMORY", ins.claims.len());
    let ghost middle = front + seq![
        blank(),
        section("ENTITIES"@, ins@.entities.len()),
        if ins@.entities.len() == 0 {
            one("none linked"@, Tone::Dim)
        } else {
            one(joined(ins@.entities, " · "@), Tone::Plain)
        },
        blank(),
        section("CLAIMS BACKED BY THIS MEMORY"@, ins@.claims.len()),
    ];
    assert(shown(out@) =~= middle);
    if ins.claims.len() == 0 {
        push_line(&mut out, Line::of("none active", Tone::Dim));
    } else {
        push_bullets(&mut out, &ins.claims);
    }
    let ghost claims = middle + if ins@.claims.len() == 0 {
        seq![one("none active"@, Tone::Dim)]
    } else {
        bullet_lines(ins@.claims)
    };
    assert(shown(out@) =~= claims);
    push_line(&mut out, Line::new());
    push_section(&mut out, "REVISION HISTORY", ins.revisions.len());
    assert(shown(out@) =~= claims + seq![
        blank(),
        section("REVISION HISTORY"@, ins@.revisions.len()),
    ]);
    if ins.revisions.len() == 0 {
        push_line(&mut out, Line::of("never corrected", Tone::Dim));
    } else {
        push_all_bulleted(&mut out, &ins.revisions);
    }
    assert(shown(out@) =~= inspection_lines(ins@));
    out
}

/// Makes the lines of the inspector pane.
pub fn draw_inspector(app: &App) -> (r: Vec<Line>)
    ensures
        shown(r@) == inspector_lines(app@),
{
    match &app.inspector {
        None => {
            let mut out = no_lines();
            push_line(&mut out, Line::of("select a memory", Tone::Dim));
            assert(shown(out@) =~= inspector_lines(app@));
            out
        },
        Some(ins) => draw_inspection(ins),
    }
}

/// Whether the title of the inspector can be shown: its first eight bytes
/// end with a whole character.
pub open spec fn inspector_titled(v: AppView) -> bool {
    v.inspector matches Some(ins) ==> cuts_whole(ins.rid, 8)
}

/// The title of the inspector.
pub open spec fn inspector_title(v: AppView) -> Seq<char> {
    match v.inspector {
        Some(ins) => " memory "@ + leading_bytes(ins.rid, 8) + " "@,
        None => " inspector "@,
    }
}

/// Whether the title of the inspector can be shown.
pub fn can_title_inspector(app: &App) -> (r: bool)
    ensures
        r == inspector_titled(app@),
{
    match &app.inspector {
        Some(ins) => can_cut(ins.rid.as_str(), 8),
        None => true,
    }
}

/// Makes the title of the inspector.
pub fn title_inspector(app: &App) -> (r: String)
    requires
        inspector_titled(app@),
    ensures
        r@ == inspector_title(app@),
{
    match &app.inspector {
        Some(ins) => " memory ".to_owned().concat(cut(ins.rid.as_str(), 8)).concat(" "),
        None => " inspector ".to_owned(),
    }
}

// Tasks -----------------------------------------------------------------

/// The lines of the tasks.
pub open spec fn task_lines(v: AppView) -> Seq<Shown> {
    if v.scope is None {
        seq![one("select a namespace to see its tasks"@, Tone::Dim)]
    } else if v.tasks.len() == 0 {
        seq![one("no tasks"@, Tone::Dim)]
    } else {
        plain_lines(v.tasks)
    }
}

/// Makes the lines of the tasks.
pub fn draw_tasks(app: &App) -> (r: Vec<Line>)
    ensures
        shown(r@) == task_lines(app@),
{
    let mut out = no_lines();
    if app.scope.is_none() {
        push_line(&mut out, Line::of("select a namespace to see its tasks", Tone::Dim));
    } else if app.tasks.len() == 0 {
        push_line(&mut out, Line::of("no tasks", Tone::Dim));
    } else {
        push_plain(&mut out, &app.tasks);
    }
    assert(shown(out@) =~= task_lines(app@));
    out
}

/// Makes the title of the tasks, with their number.
pub fn title_tasks(app: &App) -> (r: String)
    ensures
        r@ == " tasks · "@ + decimal(app@.tasks.len()) + " "@,
{
    " tasks · ".to_owned().concat(decimal_of(app.tasks.len() as u64).as_str()).concat(" ")
}

// Laws ------------------------------------------------------------------

/// Joining keeps every part in its order with the separator between neighbours:
/// the join of two lists is the join of the first, the separator and the join
/// of the second. One part stands for itself, and no parts give nothing.
pub proof fn law_joining_keeps_every_part(a: Seq<Seq<char>>, b: Seq<Seq<char>>, sep: Seq<char>)
    ensures
        a.len() == 0 ==> joined(a, sep).len() == 0,
        a.len() == 1 ==> joined(a, sep) == a[0],
        a.len() > 0 && b.len() > 0 ==> joined(a + b, sep) == joined(a, sep) + sep + joined(b, sep),
    decreases b.len(),
{
    if a.len() > 0 && b.len() > 0 {
        let s = a + b;
        assert(s.last() == b.last());
        assert(s.drop_last() =~= a + b.drop_last());
        if b.len() == 1 {
            assert(a + b.drop_last() =~= a);
        } else {
            law_joining_keeps_every_part(a, b.drop_last(), sep);
            let (x, y) = (joined(a, sep), joined(b.drop_last(), sep));
            assert(x + sep + y + sep + b.last() =~= x + sep + (y + sep + b.last()));
        }
    }
}

/// The title tells the program, the store, when the snapshot was taken and
/// whether it can be searched, and the keys.
pub proof fn law_the_title(v: AppView)
    ensures
        ({
            let t = title(v);
            &&& t.len() == 7
            &&& t[0] == ("yantrikdb"@, Tone::Bold)
            &&& t[2] == (v.store, Tone::Dim)
            &&& t[4].0 == "snapshot "@ + clock_text(v.snapshot_at) + " · "@ + v.search_state.note()
            &&& t[1] == ("  "@, Tone::Plain) && t[3] == ("  "@, Tone::Plain) && t[5] == (
                "  · "@,
                Tone::Plain,
            )
            &&& t[4].1 == Tone::Dim && t[6].1 == Tone::Dim
        }),
{
}

/// Each namespace has a row with its name, filled up to fourteen columns, and
/// the number of its memories, filled up to six.
pub proof fn law_rows_of_namespaces(v: AppView, i: int)
    requires
        0 <= i < v.namespaces.len(),
    ensures
        namespace_lines(v).len() == v.namespaces.len(),
        ({
            let row = namespace_lines(v)[i];
            let name = v.namespaces[i].0@;
            let count = signed_decimal(v.namespaces[i].1 as int);
            let (left, right) = (row[0].0, row[1].0);
            &&& row.len() == 2
            &&& row[0].1 == Tone::Plain && row[1].1 == Tone::Dim
            &&& name.is_prefix_of(left)
            &&& left.len() == if name.len() < 14 {
                14
            } else {
                name.len()
            }
            &&& forall|k: int| name.len() <= k < left.len() ==> #[trigger] left[k] == ' '
            &&& count.is_suffix_of(right)
            &&& right.len() == if count.len() < 6 {
                6
            } else {
                count.len()
            }
            &&& forall|k: int| 0 <= k < right.len() - count.len() ==> #[trigger] right[k] == ' '
        }),
{
    let name = v.namespaces[i].0@;
    let count = signed_decimal(v.namespaces[i].1 as int);
    law_padding_keeps_the_text(name, ' ', 14);
    law_padding_keeps_the_text(count, ' ', 6);
    let (left, right) = (pad_right(name, 14), pad_left(count, ' ', 6));
    assert(left.take(name.len() as int) =~= name);
    assert(right.skip(right.len() - count.len()) =~= count);
}

/// Each memory has a row: its score where it is a hit, its day where it is not,
/// then the first line of its text, clipped to the room that is left, then the
/// first letter of its type and its importance.
pub proof fn law_rows_of_memories(v: AppView, width: u16, i: int)
    requires
        0 <= i < v.memories.len(),
    ensures
        memory_lines(v, width as int).len() == v.memories.len(),
        ({
            let row = memory_lines(v, width as int)[i];
            let m = v.memories[i];
            let lead = row[0].0;
            let used = encode_utf8(lead).len();
            &&& row.len() == 3
            &&& row[0].1 == Tone::Dim && row[1].1 == Tone::Plain && row[2].1 == Tone::Dim
            &&& m.score matches Some(score) ==> lead == fixed_text(score, 2) + " "@
            &&& m.score is None ==> lead == day_text(m.created_at) + " "@
            &&& used + 10 <= width ==> row[1].0 == clipped(
                leading_line(m.text@),
                (width - 10 - used) as nat,
            )
            &&& used + 10 > width ==> row[1].0 == clipped(leading_line(m.text@), 0)
            &&& row[2].0 == " "@ + leading_bytes(m.memory_type@, 1) + fixed_text(m.importance, 1)
        }),
{
}

/// The list of memories is titled by the query while one is typed, by the
/// search that is shown, or by the order of the listing.
pub proof fn law_the_title_of_the_memories(v: AppView)
    ensures
        v.typing ==> memories_title(v) == " search: "@ + v.query + "▏ "@,
        !v.typing && v.active_query is Some ==> memories_title(v) == " search: "@ + v.active_query->0
            + " "@,
        !v.typing && v.active_query is None ==> memories_title(v) == " memories · newest first "@,
{
}

/// A bullet stands in front of the first line of a text, and its other lines
/// follow as they are.
pub proof fn law_bullets(text: Seq<char>, i: int)
    requires
        0 <= i < lines(text).len(),
    ensures
        bulleted(text).len() == lines(text).len(),
        bulleted(text)[i].len() == 1,
        bulleted(text)[i][0].1 == Tone::Plain,
        i == 0 ==> bulleted(text)[i][0].0 == "• "@ + lines(text)[i],
        i > 0 ==> bulleted(text)[i][0].0 == lines(text)[i],
{
}

/// The lines of texts follow each other text by text: those of two lists are
/// those of the first and then those of the second.
pub proof fn law_texts_follow_each_other(a: Seq<Seq<char>>, b: Seq<Seq<char>>)
    ensures
        a.len() == 0 ==> all_bulleted(a).len() == 0,
        a.len() == 1 ==> all_bulleted(a) == bulleted(a[0]),
        all_bulleted(a + b) == all_bulleted(a) + all_bulleted(b),
    decreases b.len(),
{
    if a.len() == 1 {
        assert(all_bulleted(a.drop_last()) =~= Seq::empty());
        assert(all_bulleted(a) =~= bulleted(a[0]));
    }
    if b.len() == 0 {
        assert(a + b =~= a);
        assert(all_bulleted(a) + all_bulleted(b) =~= all_bulleted(a));
    } else {
        law_texts_follow_each_other(a, b.drop_last());
        assert((a + b).drop_last() =~= a + b.drop_last());
        assert((a + b).last() == b.last());
        assert(all_bulleted(a) + all_bulleted(b.drop_last()) + bulleted(b.last()) =~= all_bulleted(a)
            + all_bulleted(b));
    }
}

/// The inspector shows, from top to bottom and apart by blank lines: the header
/// of the memory; the lines of its text; the number of its entities and their
/// names on one line; the number of its claims and each of them behind a
/// bullet; the number of its revisions and the lines of each of them. Where
/// there is nothing to show, a line says so.
pub proof fn law_what_the_inspector_shows(v: AppView, ins: InspectorView)
    requires
        v.inspector == Some(ins),
    ensures
        ({
            let all = inspector_lines(v);
            let text: int = ins.header.len() + 1int;
            let entities: int = text + lines(ins.text).len() + 1;
            let claims: int = entities + 3;
            let shown_claims: int = if ins.claims.len() == 0 {
                1
            } else {
                ins.claims.len() as int
            };
            let revisions: int = claims + shown_claims + 3;
            &&& all.len() == revisions + if ins.revisions.len() == 0 {
                1int
            } else {
                all_bulleted(ins.revisions).len() as int
            }
            &&& forall|i: int| 0 <= i < ins.header.len() ==> #[trigger] all[i] == ins.header[i]
            &&& all[text - 1].len() == 0
            &&& forall|i: int|
                0 <= i < lines(ins.text).len() ==> all[text + i] == seq![
                    (#[trigger] lines(ins.text)[i], Tone::Plain),
                ]
            &&& all[entities - 1].len() == 0
            &&& all[entities] == seq![
                ("ENTITIES"@ + " · "@ + decimal(ins.entities.len()), Tone::Head),
            ]
            &&& ins.entities.len() == 0 ==> all[entities + 1] == seq![("none linked"@, Tone::Dim)]
            &&& ins.entities.len() > 0 ==> all[entities + 1] == seq![
                (joined(ins.entities, " · "@), Tone::Plain),
            ]
            &&& all[entities + 2].len() == 0
            &&& all[claims] == seq![
                ("CLAIMS BACKED BY THIS MEMORY"@ + " · "@ + decimal(ins.claims.len()), Tone::Head),
            ]
            &&& ins.claims.len() == 0 ==> all[claims + 1] == seq![("none active"@, Tone::Dim)]
            &&& forall|i: int|
                0 <= i < ins.claims.len() ==> all[claims + 1 + i] == seq![
                    ("• "@ + #[trigger] ins.claims[i], Tone::Plain),
                ]
            &&& all[revisions - 2].len() == 0
            &&& all[revisions - 1] == seq![
                ("REVISION HISTORY"@ + " · "@ + decimal(ins.revisions.len()), Tone::Head),
            ]
            &&& ins.revisions.len() == 0 ==> all[revisions] == seq![
                ("never corrected"@, Tone::Dim),
            ]
            &&& ins.revisions.len() > 0 ==> all.skip(revisions) == all_bulleted(
                ins.revisions,
            )
        }),
{
    let all = inspector_lines(v);
    let front = ins.header + seq![blank()] + plain_lines(lines(ins.text));
    let middle = front + seq![
        blank(),
        section("ENTITIES"@, ins.entities.len()),
        if ins.entities.len() == 0 {
            one("none linked"@, Tone::Dim)
        } else {
            one(joined(ins.entities, " · "@), Tone::Plain)
        },
        blank(),
        section("CLAIMS BACKED BY THIS MEMORY"@, ins.claims.len()),
    ];
    let claims = middle + if ins.claims.len() == 0 {
        seq![one("none active"@, Tone::Dim)]
    } else {
        bullet_lines(ins.claims)
    };
    let heads = claims + seq![blank(), section("REVISION HISTORY"@, ins.revisions.len())];
    let last = if ins.revisions.len() == 0 {
        seq![one("never corrected"@, Tone::Dim)]
    } else {
        all_bulleted(ins.revisions)
    };
    assert(all =~= heads + last);
    assert(all.skip(heads.len() as int) =~= last);
    assert forall|i: int| 0 <= i < lines(ins.text).len() implies all[ins.header.len() + 1 + i]
        == seq![(#[trigger] lines(ins.text)[i], Tone::Plain)] by {
        assert(all[ins.header.len() + 1 + i] == plain_lines(lines(ins.text))[i]);
    }
    assert forall|i: int| 0 <= i < ins.claims.len() implies all[middle.len() + i] == seq![
        ("• "@ + #[trigger] ins.claims[i], Tone::Plain),
    ] by {
        assert(all[middle.len() + i] == bullet_lines(ins.claims)[i]);
    }
    assert(all[heads.len() as int] == last[0] || last.len() == 0);
}

/// Without a memory the inspector asks for one.
pub proof fn law_an_empty_inspector(v: AppView)
    requires
        v.inspector is None,
    ensures
        inspector_lines(v) == seq![seq![("select a memory"@, Tone::Dim)]],
        inspector_title(v) == " inspector "@,
{
}

/// The inspector is titled by the front of the id of its memory.
pub proof fn law_the_title_of_the_inspector(v: AppView, ins: InspectorView)
    requires
        v.inspector == Some(ins),
    ensures
        inspector_title(v) == " memory "@ + leading_bytes(ins.rid, 8) + " "@,
        inspector_titled(v) <==> cuts_whole(ins.rid, 8),
{
}

/// The tasks are shown one by one where a namespace is in scope; otherwise a
/// line says that there are none, or that a namespace is to be selected.
pub proof fn law_what_the_tasks_show(v: AppView)
    ensures
        v.scope is None ==> task_lines(v) == seq![
            seq![("select a namespace to see its tasks"@, Tone::Dim)],
        ],
        v.scope is Some && v.tasks.len() == 0 ==> task_lines(v) == seq![
            seq![("no tasks"@, Tone::Dim)],
        ],
        v.scope is Some && v.tasks.len() > 0 ==> task_lines(v).len() == v.tasks.len() && forall|
            i: int,
        |
            0 <= i < v.tasks.len() ==> #[trigger] task_lines(v)[i] == seq![
                (v.tasks[i], Tone::Plain),
            ],
{
}

/// The list of memories can be drawn exactly where each type can be cut behind
/// its first byte and the calendar reaches the time of each row without a score.
pub proof fn law_what_can_be_drawn(v: AppView)
    ensures
        rows_drawable(v.memories) <==> forall|i: int|
            0 <= i < v.memories.len() ==> {
                &&& cuts_whole((#[trigger] v.memories[i]).memory_type@, 1)
                &&& v.memories[i].score is None ==> in_calendar(v.memories[i].created_at)
            },
{
    assert forall|i: int| 0 <= i < v.memories.len() implies (#[trigger] v.memories[i]).is_drawable()
        == (cuts_whole(v.memories[i].memory_type@, 1) && (v.memories[i].score is None
        ==> in_calendar(v.memories[i].created_at))) by {
    }
}

} // verus!
