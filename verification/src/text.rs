//! Text as sequences of characters: the pieces from which every line on the
//! screen is built.

use vstd::prelude::*;
use vstd::utf8::{decode_utf8, encode_utf8, encode_utf8_decode_utf8, is_char_boundary};

verus! {

/// Appends one character; std documents `String::push` as appending the given
/// `char` to the end of the string.
pub assume_specification[ String::push ](s: &mut String, c: char)
    ensures
        final(s)@ == old(s)@.push(c),
;

/// The characters of `s`, in order.
pub fn chars_of(s: &str) -> (r: Vec<char>)
    ensures
        r@ == s@,
{
    let mut out: Vec<char> = Vec::new();
    for c in it: s.chars()
        invariant
            out@ == s@.take(it.index() as int),
            it.seq() == s@,
    {
        out.push(c);
        assert(s@.take(it.index() as int).push(c) =~= s@.take(it.index() + 1));
    }
    assert(s@.take(s@.len() as int) =~= s@);
    out
}

/// The string that holds `chars[from..to]`.
pub fn string_of(chars: &Vec<char>, from: usize, to: usize) -> (r: String)
    requires
        from <= to <= chars.len(),
    ensures
        r@ == chars@.subrange(from as int, to as int),
{
    let mut out = String::new();
    let mut i: usize = from;
    while i < to
        invariant
            from <= i <= to <= chars.len(),
            out@ == chars@.subrange(from as int, i as int),
        decreases to - i,
    {
        out.push(chars[i]);
        i += 1;
        assert(chars@.subrange(from as int, i - 1).push(chars@[i - 1]) =~= chars@.subrange(
            from as int,
            i as int,
        ));
    }
    out
}

/// Whether two texts hold the same characters.
pub fn same_text(a: &str, b: &str) -> (r: bool)
    ensures
        r == (a@ == b@),
{
    a.to_owned() == b.to_owned()
}

// Numbers ---------------------------------------------------------------

/// The decimal digit `d`.
pub open spec fn digit(d: int) -> char {
    (48 + d) as char
}

/// The decimal numeral of `n`, without leading zeros.
pub open spec fn decimal(n: nat) -> Seq<char>
    decreases n,
{
    if n < 10 {
        seq![digit(n as int)]
    } else {
        decimal(n / 10).push(digit((n % 10) as int))
    }
}

/// The decimal numeral of `n`, with a minus sign in front of a negative one.
pub open spec fn signed_decimal(n: int) -> Seq<char> {
    if n < 0 {
        seq!['-'] + decimal((-n) as nat)
    } else {
        decimal(n as nat)
    }
}

/// `n` copies of `c`.
pub open spec fn repeated(c: char, n: nat) -> Seq<char> {
    Seq::new(n, |i: int| c)
}

/// `t` filled up with `c` on the left to `width` characters.
pub open spec fn pad_left(t: Seq<char>, c: char, width: nat) -> Seq<char> {
    if t.len() < width {
        repeated(c, (width - t.len()) as nat) + t
    } else {
        t
    }
}

/// `t` filled up with blanks on the right to `width` characters.
pub open spec fn pad_right(t: Seq<char>, width: nat) -> Seq<char> {
    if t.len() < width {
        t + repeated(' ', (width - t.len()) as nat)
    } else {
        t
    }
}

/// The hexadecimal digit `d`, in lower case.
pub open spec fn hex_digit(d: int) -> char {
    if d < 10 {
        digit(d)
    } else {
        (87 + d) as char
    }
}

/// The last `width` hexadecimal digits of `n`.
pub open spec fn hex(n: nat, width: nat) -> Seq<char>
    decreases width,
{
    if width == 0 {
        Seq::empty()
    } else {
        hex(n / 16, (width - 1) as nat).push(hex_digit((n % 16) as int))
    }
}

/// The hexadecimal digit `d`, in lower case.
pub fn hex_char(d: u64) -> (c: char)
    requires
        d < 16,
    ensures
        c == hex_digit(d as int),
{
    if d < 10 {
        (48u8 + d as u8) as char
    } else {
        (87u8 + d as u8) as char
    }
}

/// Appends the decimal numeral of `n`.
pub fn push_decimal(out: &mut String, n: u64)
    ensures
        final(out)@ == old(out)@ + decimal(n as nat),
    decreases n,
{
    if n >= 10 {
        push_decimal(out, n / 10);
    }
    out.push(hex_char(n % 10));
    assert(out@ =~= old(out)@ + decimal(n as nat));
}

/// The decimal numeral of `n`.
pub fn decimal_of(n: u64) -> (r: String)
    ensures
        r@ == decimal(n as nat),
{
    let mut out = String::new();
    push_decimal(&mut out, n);
    assert(out@ =~= decimal(n as nat));
    out
}

/// The decimal numeral of a signed number.
pub fn signed_decimal_of(n: i64) -> (r: String)
    ensures
        r@ == signed_decimal(n as int),
{
    let mut out = String::new();
    if n < 0 {
        out.push('-');
        let magnitude: u64 = (-(n + 1)) as u64 + 1;
        push_decimal(&mut out, magnitude);
        assert(out@ =~= seq!['-'] + decimal((-n) as nat));
    } else {
        push_decimal(&mut out, n as u64);
        assert(out@ =~= decimal(n as nat));
    }
    out
}

fn push_repeated(out: &mut String, c: char, n: usize)
    ensures
        final(out)@ == old(out)@ + repeated(c, n as nat),
{
    let mut i: usize = 0;
    assert(out@ =~= out@ + repeated(c, 0));
    while i < n
        invariant
            i <= n,
            out@ == old(out)@ + repeated(c, i as nat),
        decreases n - i,
    {
        out.push(c);
        i += 1;
        assert(out@ =~= old(out)@ + repeated(c, i as nat));
    }
}

/// Appends `t`, filled up with `c` on the left to `width` characters.
pub fn push_padded_left(out: &mut String, t: &str, c: char, width: usize)
    ensures
        final(out)@ == old(out)@ + pad_left(t@, c, width as nat),
{
    let n: usize = t.unicode_len();
    if n < width {
        push_repeated(out, c, width - n);
    }
    out.append(t);
    assert(out@ =~= old(out)@ + pad_left(t@, c, width as nat));
}

/// Appends `t`, filled up with blanks on the right to `width` characters.
pub fn push_padded_right(out: &mut String, t: &str, width: usize)
    ensures
        final(out)@ == old(out)@ + pad_right(t@, width as nat),
{
    let n: usize = t.unicode_len();
    out.append(t);
    if n < width {
        push_repeated(out, ' ', width - n);
    }
    assert(out@ =~= old(out)@ + pad_right(t@, width as nat));
}

/// Appends the last `width` hexadecimal digits of `n`.
pub fn push_hex(out: &mut String, n: u64, width: usize)
    ensures
        final(out)@ == old(out)@ + hex(n as nat, width as nat),
    decreases width,
{
    if width > 0 {
        push_hex(out, n / 16, width - 1);
        out.push(hex_char(n % 16));
    }
    assert(out@ =~= old(out)@ + hex(n as nat, width as nat));
}

// Lines -----------------------------------------------------------------

/// The place of the first line feed of `s` at or after `from`, or the length
/// of `s` where there is none.
pub open spec fn next_break(s: Seq<char>, from: int) -> int
    decreases s.len() - from,
{
    if from >= s.len() {
        s.len() as int
    } else if s[from] == '\n' {
        from
    } else {
        next_break(s, from + 1)
    }
}

/// `s` without a carriage return at its end.
pub open spec fn without_return(s: Seq<char>) -> Seq<char> {
    if s.len() > 0 && s.last() == '\r' {
        s.drop_last()
    } else {
        s
    }
}

/// The lines of `s`: separated by line feeds, a carriage return right before
/// a line feed belonging to the separator, the last line feed optional.
pub open spec fn lines(s: Seq<char>) -> Seq<Seq<char>>
    decreases s.len(),
    via lines_decreases
{
    if s.len() == 0 {
        Seq::empty()
    } else {
        let i = next_break(s, 0);
        if i < s.len() {
            seq![without_return(s.take(i))] + lines(s.skip(i + 1))
        } else {
            seq![s]
        }
    }
}

#[via_fn]
proof fn lines_decreases(s: Seq<char>) {
    lemma_next_break(s, 0);
}

proof fn lemma_next_break(s: Seq<char>, from: int)
    requires
        0 <= from <= s.len(),
    ensures
        from <= next_break(s, from) <= s.len(),
        next_break(s, from) < s.len() ==> s[next_break(s, from)] == '\n',
        forall|j: int| from <= j < next_break(s, from) ==> s[j] != '\n',
    decreases s.len() - from,
{
    if from < s.len() && s[from] != '\n' {
        lemma_next_break(s, from + 1);
    }
}

/// A line break is found by its place alone, wherever the text in front of it
/// was cut.
proof fn lemma_next_break_skip(s: Seq<char>, start: int, from: int)
    requires
        0 <= start <= from <= s.len(),
    ensures
        next_break(s.skip(start), from - start) == next_break(s, from) - start,
    decreases s.len() - from,
{
    if from < s.len() && s[from] != '\n' {
        lemma_next_break_skip(s, start, from + 1);
    }
}

fn find_break(chars: &Vec<char>, from: usize) -> (i: usize)
    requires
        from <= chars.len(),
    ensures
        i == next_break(chars@, from as int),
        from <= i <= chars.len(),
{
    let mut i: usize = from;
    while i < chars.len() && chars[i] != '\n'
        invariant
            from <= i <= chars.len(),
            next_break(chars@, i as int) == next_break(chars@, from as int),
        decreases chars.len() - i,
    {
        i += 1;
    }
    i
}

/// The end of the line that `chars[start..at]` holds, without a carriage
/// return in front of the line feed.
fn line_end(chars: &Vec<char>, start: usize, at: usize) -> (end: usize)
    requires
        start <= at <= chars.len(),
    ensures
        start <= end <= at,
        chars@.subrange(start as int, end as int) == without_return(
            chars@.subrange(start as int, at as int),
        ),
{
    if start < at && chars[at - 1] == '\r' {
        assert(chars@.subrange(start as int, at as int).drop_last() =~= chars@.subrange(
            start as int,
            at - 1,
        ));
        at - 1
    } else {
        at
    }
}

/// The lines of `s`.
pub fn lines_of(s: &str) -> (r: Vec<String>)
    ensures
        r@.map_values(|l: String| l@) == lines(s@),
{
    let chars = chars_of(s);
    let mut out: Vec<String> = Vec::new();
    let mut start: usize = 0;
    let ghost views = |l: String| l@;
    assert(s@.skip(0) =~= s@);
    assert(out@.map_values(views) + lines(s@) =~= lines(s@));
    while start < chars.len()
        invariant
            start <= chars.len(),
            chars@ == s@,
            views == (|l: String| l@),
            out@.map_values(views) + lines(s@.skip(start as int)) == lines(s@),
        decreases chars.len() - start,
    {
        let ghost rest = s@.skip(start as int);
        let ghost done = out@.map_values(views);
        let at: usize = find_break(&chars, start);
        proof {
            lemma_next_break_skip(s@, start as int, start as int);
        }
        if at < chars.len() {
            let end: usize = line_end(&chars, start, at);
            let line = string_of(&chars, start, end);
            assert(rest.take(at - start) =~= s@.subrange(start as int, at as int));
            assert(rest.skip(at - start + 1) =~= s@.skip(at + 1));
            out.push(line);
            assert(out@.map_values(views) =~= done.push(line@));
            assert(done.push(line@) + lines(s@.skip(at + 1)) =~= done + (seq![line@] + lines(
                s@.skip(at + 1),
            )));
            start = at + 1;
        } else {
            let line = string_of(&chars, start, at);
            assert(rest =~= s@.subrange(start as int, at as int));
            out.push(line);
            assert(out@.map_values(views) =~= done.push(line@));
            assert(done.push(line@) =~= done + seq![line@]);
            start = chars.len();
            assert(done.push(line@) + lines(s@.skip(start as int)) =~= done.push(line@));
        }
    }
    assert(out@.map_values(views) + lines(s@.skip(start as int)) =~= out@.map_values(views));
    out
}

/// The first line of `s`; empty for an empty text.
pub open spec fn leading_line(s: Seq<char>) -> Seq<char> {
    if s.len() == 0 {
        Seq::empty()
    } else {
        lines(s)[0]
    }
}

/// `line` cut to `width` characters, but not below one, with an ellipsis
/// behind it where it is longer than `width`.
pub open spec fn clipped(line: Seq<char>, width: nat) -> Seq<char> {
    let room = if width < 1 {
        1nat
    } else {
        width
    };
    let kept = if line.len() < room {
        line
    } else {
        line.take(room as int)
    };
    if line.len() > width {
        kept.push('…')
    } else {
        kept
    }
}

/// The first line of `text`, cut to `width` characters with an ellipsis.
pub fn first_line(text: &str, width: usize) -> (r: String)
    ensures
        r@ == clipped(leading_line(text@), width as nat),
{
    let chars = chars_of(text);
    let at: usize = find_break(&chars, 0);
    let end: usize = if at < chars.len() {
        line_end(&chars, 0, at)
    } else {
        at
    };
    let ghost line = leading_line(text@);
    proof {
        assert(text@.take(at as int) =~= text@.subrange(0, at as int));
        assert(line =~= text@.subrange(0, end as int));
    }
    let room: usize = if width < 1 {
        1
    } else {
        width
    };
    let kept: usize = if end < room {
        end
    } else {
        room
    };
    let mut out = string_of(&chars, 0, kept);
    assert(kept == room ==> line.take(room as int) =~= text@.subrange(0, room as int));
    if end > width {
        out.push('…');
    }
    out
}

/// A clipped first line is one line, no longer than it may be but for the
/// ellipsis, and whole where it fits.
pub proof fn law_first_line_fits(text: Seq<char>, width: nat)
    ensures
        clipped(leading_line(text), width).len() <= (if width < 1 {
            1
        } else {
            width as int
        }) + 1,
        !clipped(leading_line(text), width).contains('\n'),
        leading_line(text).len() <= width ==> clipped(leading_line(text), width) == leading_line(
            text,
        ),
{
    let line = leading_line(text);
    if text.len() > 0 {
        lemma_next_break(text, 0);
        let i = next_break(text, 0);
        assert(line == if i < text.len() {
            without_return(text.take(i))
        } else {
            text
        });
    }
    assert forall|j: int| 0 <= j < line.len() implies line[j] != '\n' by {
        assert(line[j] == text[j]);
    }
    if line.len() == width {
        assert(line.take(width as int) =~= line);
    }
    let r = clipped(line, width);
    if r.contains('\n') {
        let j = choose|j: int| 0 <= j < r.len() && r[j] == '\n';
        assert(j < line.len() ==> r[j] == line[j] || r[j] == '…');
    }
}

// Bytes -----------------------------------------------------------------

/// The number of bytes in the first `n` bytes of `s`: fewer where `s` is
/// shorter.
pub open spec fn byte_cut(s: Seq<char>, n: int) -> int {
    if n < encode_utf8(s).len() {
        n
    } else {
        encode_utf8(s).len() as int
    }
}

/// Whether the first `n` bytes of `s` end with a whole character.
pub open spec fn cuts_whole(s: Seq<char>, n: int) -> bool {
    is_char_boundary(encode_utf8(s), byte_cut(s, n))
}

/// The text in the first `n` bytes of `s`.
pub open spec fn leading_bytes(s: Seq<char>, n: int) -> Seq<char> {
    decode_utf8(encode_utf8(s).take(byte_cut(s, n)))
}

/// Whether the first `n` bytes of `s` end with a whole character.
pub fn can_cut(s: &str, n: usize) -> (r: bool)
    ensures
        r == cuts_whole(s@, n as int),
        n <= encode_utf8(s@).len() ==> r == is_char_boundary(encode_utf8(s@), n as int),
        n > encode_utf8(s@).len() ==> r == is_char_boundary(
            encode_utf8(s@),
            encode_utf8(s@).len() as int,
        ),
{
    let len: usize = s.as_bytes().len();
    s.is_char_boundary(if n < len { n } else { len })
}

/// The text in the first `n` bytes of `s`.
pub fn cut(s: &str, n: usize) -> (r: &str)
    requires
        cuts_whole(s@, n as int),
    ensures
        r@ == leading_bytes(s@, n as int),
        encode_utf8(r@).is_prefix_of(encode_utf8(s@)),
        n <= encode_utf8(s@).len() ==> encode_utf8(r@).len() == n,
        n >= encode_utf8(s@).len() ==> r@ == s@,
{
    let len: usize = s.as_bytes().len();
    let (front, _) = s.split_at(if n < len { n } else { len });
    proof {
        encode_utf8_decode_utf8(front@);
        assert(encode_utf8(front@) =~= encode_utf8(s@).take(byte_cut(s@, n as int)));
        if n >= encode_utf8(s@).len() {
            assert(encode_utf8(front@) =~= encode_utf8(s@));
            encode_utf8_decode_utf8(s@);
        }
    }
    front
}

// Blanks ----------------------------------------------------------------

/// The characters with the Unicode property White_Space.
pub open spec fn is_blank(c: char) -> bool {
    ||| '\u{9}' <= c <= '\u{d}'
    ||| c == ' '
    ||| c == '\u{85}'
    ||| c == '\u{a0}'
    ||| c == '\u{1680}'
    ||| '\u{2000}' <= c <= '\u{200a}'
    ||| c == '\u{2028}'
    ||| c == '\u{2029}'
    ||| c == '\u{202f}'
    ||| c == '\u{205f}'
    ||| c == '\u{3000}'
}

/// `s` without the blanks at its start.
pub open spec fn trim_start(s: Seq<char>) -> Seq<char>
    decreases s.len(),
{
    if s.len() > 0 && is_blank(s[0]) {
        trim_start(s.skip(1))
    } else {
        s
    }
}

/// `s` without the blanks at its end.
pub open spec fn trim_end(s: Seq<char>) -> Seq<char>
    decreases s.len(),
{
    if s.len() > 0 && is_blank(s.last()) {
        trim_end(s.drop_last())
    } else {
        s
    }
}

/// `s` without the blanks at its start and at its end.
pub open spec fn trimmed(s: Seq<char>) -> Seq<char> {
    trim_end(trim_start(s))
}

fn blank(c: char) -> (r: bool)
    ensures
        r == is_blank(c),
{
    ('\u{9}' <= c && c <= '\u{d}') || c == ' ' || c == '\u{85}' || c == '\u{a0}' || c
        == '\u{1680}' || ('\u{2000}' <= c && c <= '\u{200a}') || c == '\u{2028}' || c
        == '\u{2029}' || c == '\u{202f}' || c == '\u{205f}' || c == '\u{3000}'
}

/// `s` without the blanks at its start and at its end.
pub fn trim(s: &str) -> (r: String)
    ensures
        r@ == trimmed(s@),
{
    let chars = chars_of(s);
    let mut from: usize = 0;
    assert(s@.skip(0) =~= s@);
    while from < chars.len() && blank(chars[from])
        invariant
            from <= chars.len(),
            chars@ == s@,
            trim_start(s@) == trim_start(s@.skip(from as int)),
        decreases chars.len() - from,
    {
        assert(s@.skip(from as int).skip(1) =~= s@.skip(from + 1));
        from += 1;
    }
    let mut to: usize = chars.len();
    assert(s@.subrange(from as int, to as int) =~= s@.skip(from as int));
    while to > from && blank(chars[to - 1])
        invariant
            from <= to <= chars.len(),
            chars@ == s@,
            trimmed(s@) == trim_end(s@.subrange(from as int, to as int)),
        decreases to,
    {
        assert(s@.subrange(from as int, to as int).drop_last() =~= s@.subrange(
            from as int,
            to - 1,
        ));
        to -= 1;
    }
    string_of(&chars, from, to)
}

// Laws ------------------------------------------------------------------

/// The number that a row of decimal digits stands for.
pub open spec fn decimal_value(s: Seq<char>) -> nat
    decreases s.len(),
{
    if s.len() == 0 {
        0
    } else {
        10 * decimal_value(s.drop_last()) + (s.last() as int - '0' as int) as nat
    }
}

/// A decimal numeral consists of digits, has no zero in front but for nothing
/// itself, and stands for its number.
pub proof fn law_decimal_reads_back(n: nat)
    ensures
        decimal_value(decimal(n)) == n,
        decimal(n).len() >= 1,
        forall|i: int| 0 <= i < decimal(n).len() ==> '0' <= #[trigger] decimal(n)[i] <= '9',
        n > 0 ==> decimal(n)[0] != '0',
    decreases n,
{
    let s = decimal(n);
    if n < 10 {
        assert(s.drop_last() =~= Seq::<char>::empty());
        assert(decimal_value(s.drop_last()) == 0);
    } else {
        law_decimal_reads_back(n / 10);
        assert(s.drop_last() =~= decimal(n / 10));
        assert(s[0] == decimal(n / 10)[0]);
        assert forall|i: int| 0 <= i < s.len() implies '0' <= #[trigger] s[i] <= '9' by {
            if i < s.len() - 1 {
                assert(s[i] == decimal(n / 10)[i]);
            }
        }
    }
}

/// A signed numeral is the numeral of the distance from nothing, with a minus
/// sign in front of a number below nothing.
pub proof fn law_signed_decimal_reads_back(n: int)
    ensures
        n < 0 <==> signed_decimal(n)[0] == '-',
        n < 0 ==> decimal_value(signed_decimal(n).skip(1)) == -n,
        n >= 0 ==> decimal_value(signed_decimal(n)) == n,
{
    law_decimal_reads_back(if n < 0 {
        (-n) as nat
    } else {
        n as nat
    });
    if n < 0 {
        assert(signed_decimal(n).skip(1) =~= decimal((-n) as nat));
    }
}

/// The number that a row of hexadecimal digits stands for.
pub open spec fn hex_value(s: Seq<char>) -> nat
    decreases s.len(),
{
    if s.len() == 0 {
        0
    } else {
        16 * hex_value(s.drop_last()) + if s.last() <= '9' {
            (s.last() as int - '0' as int) as nat
        } else {
            (s.last() as int - 'a' as int + 10) as nat
        }
    }
}

/// A hexadecimal numeral has the width asked for, consists of digits in lower
/// case, and stands for its number where that fits.
pub proof fn law_hex_reads_back(n: nat, width: nat)
    ensures
        hex(n, width).len() == width,
        forall|i: int|
            0 <= i < width ==> '0' <= #[trigger] hex(n, width)[i] <= '9' || 'a' <= hex(
                n,
                width,
            )[i] <= 'f',
        n < vstd::arithmetic::power::pow(16, width) ==> hex_value(hex(n, width)) == n,
    decreases width,
{
    vstd::arithmetic::power::lemma_pow0(16);
    if width > 0 {
        let s = hex(n, width);
        let front = hex(n / 16, (width - 1) as nat);
        law_hex_reads_back(n / 16, (width - 1) as nat);
        assert(s.drop_last() =~= front);
        reveal(vstd::arithmetic::power::pow);
        assert forall|i: int| 0 <= i < width implies '0' <= #[trigger] s[i] <= '9' || 'a' <= s[i]
            <= 'f' by {
            if i < width - 1 {
                assert(s[i] == front[i]);
            }
        }
    }
}

/// Padding makes a text at least as long as asked for, keeps it whole, and
/// adds only the filling, on the one side.
pub proof fn law_padding_keeps_the_text(t: Seq<char>, c: char, width: nat)
    ensures
        ({
            let l = pad_left(t, c, width);
            let r = pad_right(t, width);
            let added = if t.len() < width {
                width - t.len()
            } else {
                0
            };
            &&& l.len() == t.len() + added
            &&& l.skip(added) == t
            &&& forall|i: int| 0 <= i < added ==> #[trigger] l[i] == c
            &&& r.len() == t.len() + added
            &&& r.take(t.len() as int) == t
            &&& forall|i: int| t.len() <= i < r.len() ==> #[trigger] r[i] == ' '
        }),
{
    let added = if t.len() < width {
        width - t.len()
    } else {
        0
    };
    assert(pad_left(t, c, width).skip(added) =~= t);
    assert(pad_right(t, width).take(t.len() as int) =~= t);
}

proof fn lemma_no_break(s: Seq<char>, from: int)
    requires
        0 <= from <= s.len(),
        forall|j: int| from <= j < s.len() ==> s[j] != '\n',
    ensures
        next_break(s, from) == s.len(),
    decreases s.len() - from,
{
    if from < s.len() {
        lemma_no_break(s, from + 1);
    }
}

proof fn lemma_first_break(s: Seq<char>, from: int, at: int)
    requires
        0 <= from <= at < s.len(),
        s[at] == '\n',
        forall|j: int| from <= j < at ==> s[j] != '\n',
    ensures
        next_break(s, from) == at,
    decreases at - from,
{
    if from < at {
        lemma_first_break(s, from + 1, at);
    }
}

/// A text without a line feed is one line, an empty one none. In front of a
/// line feed, or of a carriage return and a line feed, stands a line, and the
/// lines of what is behind it follow.
pub proof fn law_lines_are_separated_by_breaks(line: Seq<char>, rest: Seq<char>)
    requires
        !line.contains('\n'),
    ensures
        lines(Seq::empty()).len() == 0,
        line.len() > 0 ==> lines(line) == seq![line],
        line.len() == 0 || line.last() != '\r' ==> lines(line.push('\n') + rest) == seq![line]
            + lines(rest),
        lines(line.push('\r').push('\n') + rest) == seq![line] + lines(rest),
        leading_line(line) == line,
        line.len() == 0 || line.last() != '\r' ==> leading_line(line.push('\n') + rest) == line,
        leading_line(line.push('\r').push('\n') + rest) == line,
{
    assert forall|j: int| 0 <= j < line.len() implies line[j] != '\n' by {
        assert(line.contains(line[j]));
    }
    lemma_no_break(line, 0);
    let n = line.len() as int;
    let a = line.push('\n') + rest;
    lemma_first_break(a, 0, n);
    assert(a.take(n) =~= line);
    assert(a.skip(n + 1) =~= rest);
    let b = line.push('\r').push('\n') + rest;
    lemma_first_break(b, 0, n + 1);
    assert(b.take(n + 1) =~= line.push('\r'));
    assert(line.push('\r').drop_last() =~= line);
    assert(b.skip(n + 2) =~= rest);
}

/// A clipped line that is too long is as much of its front as there is room
/// for, but at least one character, and an ellipsis.
pub proof fn law_clipped_lines_end_with_an_ellipsis(line: Seq<char>, width: nat)
    ensures
        line.len() <= width ==> clipped(line, width) == line,
        line.len() > width ==> {
            let r = clipped(line, width);
            &&& r.len() == 1 + (if width == 0 {
                1
            } else {
                width
            })
            &&& r.last() == '…'
            &&& r.drop_last().is_prefix_of(line)
        },
{
    let room = if width == 0 {
        1int
    } else {
        width as int
    };
    if line.len() > width {
        let kept = line.take(room);
        if line.len() == room {
            assert(kept =~= line);
        }
        assert(kept.push('…').drop_last() =~= kept);
    } else if line.len() == room {
        assert(line.take(room) =~= line);
    }
}

proof fn lemma_trim_start(s: Seq<char>) -> (n: int)
    ensures
        0 <= n <= s.len(),
        trim_start(s) == s.skip(n),
        forall|j: int| 0 <= j < n ==> is_blank(#[trigger] s[j]),
        n < s.len() ==> !is_blank(s[n]),
    decreases s.len(),
{
    if s.len() > 0 && is_blank(s[0]) {
        let n = lemma_trim_start(s.skip(1));
        assert(s.skip(1).skip(n) =~= s.skip(n + 1));
        assert forall|j: int| 0 <= j < n + 1 implies is_blank(#[trigger] s[j]) by {
            if j > 0 {
                assert(s.skip(1)[j - 1] == s[j]);
            }
        }
        n + 1
    } else {
        assert(s.skip(0) =~= s);
        0
    }
}

proof fn lemma_trim_end(s: Seq<char>) -> (n: int)
    ensures
        0 <= n <= s.len(),
        trim_end(s) == s.take(n),
        forall|j: int| n <= j < s.len() ==> is_blank(#[trigger] s[j]),
        n > 0 ==> !is_blank(s[n - 1]),
    decreases s.len(),
{
    if s.len() > 0 && is_blank(s.last()) {
        let n = lemma_trim_end(s.drop_last());
        assert(s.drop_last().take(n) =~= s.take(n));
        assert forall|j: int| n <= j < s.len() implies is_blank(#[trigger] s[j]) by {
            if j < s.len() - 1 {
                assert(s.drop_last()[j] == s[j]);
            }
        }
        n
    } else {
        assert(s.take(s.len() as int) =~= s);
        s.len() as int
    }
}

/// A trimmed text neither starts nor ends with a blank, and what was taken
/// away at the two ends is blank.
pub proof fn law_trimming_takes_blanks_from_the_ends(s: Seq<char>)
    ensures
        trimmed(s).len() > 0 ==> !is_blank(trimmed(s)[0]) && !is_blank(trimmed(s).last()),
        exists|from: int, to: int|
            {
                &&& 0 <= from <= to <= s.len()
                &&& #[trigger] s.subrange(from, to) == trimmed(s)
                &&& forall|j: int| 0 <= j < from || to <= j < s.len() ==> is_blank(#[trigger] s[j])
            },
{
    let from = lemma_trim_start(s);
    let t = s.skip(from);
    let n = lemma_trim_end(t);
    assert(s.subrange(from, from + n) =~= t.take(n));
    assert forall|j: int| 0 <= j < from || from + n <= j < s.len() implies is_blank(
        #[trigger] s[j],
    ) by {
        if j >= from {
            assert(t[j - from] == s[j]);
        }
    }
}

/// Zeros in front of a numeral do not change its number, and a numeral is as
/// long as its number asks for.
pub proof fn law_padded_numerals_read_back(n: nat, width: nat)
    ensures
        decimal_value(pad_left(decimal(n), '0', width)) == n,
        pad_left(decimal(n), '0', width).len() >= width,
        n < 10 ==> decimal(n).len() == 1,
        n < 100 ==> decimal(n).len() <= 2,
        n < 100 ==> pad_left(decimal(n), '0', 2).len() == 2,
{
    law_decimal_reads_back(n);
    if decimal(n).len() < width {
        lemma_zeros_in_front((width - decimal(n).len()) as nat, decimal(n));
    }
    if 10 <= n < 100 {
        assert(decimal(n / 10).len() == 1);
    }
}

proof fn lemma_zeros_in_front(k: nat, t: Seq<char>)
    ensures
        decimal_value(repeated('0', k) + t) == decimal_value(t),
    decreases k + t.len(),
{
    let s = repeated('0', k) + t;
    if t.len() > 0 {
        lemma_zeros_in_front(k, t.drop_last());
        assert(s.drop_last() =~= repeated('0', k) + t.drop_last());
    } else if k > 0 {
        lemma_zeros_in_front((k - 1) as nat, t);
        assert(s.drop_last() =~= repeated('0', (k - 1) as nat) + t);
    }
}

} // verus!
