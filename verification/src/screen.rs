//! Lines on the screen: runs of text, each in one tone.

use vstd::prelude::*;

verus! {

/// How a run of text is shown.
#[derive(Clone, Copy, Debug, PartialEq, Eq, Structural)]
pub enum Tone {
    Plain,
    /// In the background.
    Dim,
    /// Set off from the rest.
    Key,
    /// The head of a section.
    Head,
    /// The name of the program.
    Bold,
}

/// A run of text in one tone.
pub struct Span {
    pub text: String,
    pub tone: Tone,
}

/// One line: runs of text side by side.
pub struct Line {
    pub spans: Vec<Span>,
}

impl View for Span {
    type V = (Seq<char>, Tone);

    open spec fn view(&self) -> (Seq<char>, Tone) {
        (self.text@, self.tone)
    }
}

impl View for Line {
    type V = Seq<(Seq<char>, Tone)>;

    open spec fn view(&self) -> Seq<(Seq<char>, Tone)> {
        self.spans@.map_values(|s: Span| s@)
    }
}

/// The contents of lines.
pub open spec fn shown(lines: Seq<Line>) -> Seq<Seq<(Seq<char>, Tone)>> {
    lines.map_values(|l: Line| l@)
}

/// The contents of texts.
pub open spec fn texts(list: Seq<String>) -> Seq<Seq<char>> {
    list.map_values(|s: String| s@)
}

impl Line {
    /// A line without text.
    pub fn new() -> (line: Line)
        ensures
            line@ == Seq::<(Seq<char>, Tone)>::empty(),
    {
        let line = Line { spans: Vec::new() };
        assert(line@ =~= Seq::empty());
        line
    }

    /// Appends a run of text.
    pub fn push(&mut self, text: &str, tone: Tone)
        ensures
            final(self)@ == old(self)@.push((text@, tone)),
            final(self).spans@.len() == old(self).spans@.len() + 1,
            final(self).spans@.drop_last() == old(self).spans@,
            final(self).spans@.last().text@ == text@,
            final(self).spans@.last().tone == tone,
    {
        self.spans.push(Span { text: text.to_owned(), tone });
        assert(self@ =~= old(self)@.push((text@, tone)));
        assert(self.spans@.drop_last() =~= old(self).spans@);
    }

    /// A line of one run of text.
    pub fn of(text: &str, tone: Tone) -> (line: Line)
        ensures
            line@ == seq![(text@, tone)],
    {
        let mut line = Line::new();
        line.push(text, tone);
        assert(line@ =~= seq![(text@, tone)]);
        line
    }

    /// A line with the same contents.
    pub fn copy(&self) -> (line: Line)
        ensures
            line@ == self@,
    {
        let mut line = Line::new();
        let mut i: usize = 0;
        assert(self@.take(0) =~= Seq::empty());
        while i < self.spans.len()
            invariant
                i <= self.spans.len(),
                line@ == self@.take(i as int),
            decreases self.spans.len() - i,
        {
            line.push(self.spans[i].text.as_str(), self.spans[i].tone);
            assert(self@.take(i + 1) =~= self@.take(i as int).push(self@[i as int]));
            i += 1;
        }
        assert(self@.take(i as int) =~= self@);
        line
    }
}

/// Appends a line to `lines`.
pub fn push_line(lines: &mut Vec<Line>, line: Line)
    ensures
        shown(final(lines)@) == shown(old(lines)@).push(line@),
        final(lines)@ == old(lines)@.push(line),
{
    lines.push(line);
    assert(shown(lines@) =~= shown(old(lines)@).push(line@));
}

/// Appends a text to `list`.
pub fn push_text(list: &mut Vec<String>, text: String)
    ensures
        texts(final(list)@) == texts(old(list)@).push(text@),
        final(list)@ == old(list)@.push(text),
{
    list.push(text);
    assert(texts(list@) =~= texts(old(list)@).push(text@));
}

/// No lines.
pub fn no_lines() -> (lines: Vec<Line>)
    ensures
        shown(lines@) == Seq::<Seq<(Seq<char>, Tone)>>::empty(),
{
    let lines: Vec<Line> = Vec::new();
    assert(shown(lines@) =~= Seq::empty());
    lines
}

/// No texts.
pub fn no_texts() -> (list: Vec<String>)
    ensures
        texts(list@) == Seq::<Seq<char>>::empty(),
{
    let list: Vec<String> = Vec::new();
    assert(texts(list@) =~= Seq::empty());
    list
}

} // verus!
