//! Orders, and sequences arranged by them.

use vstd::prelude::*;

use crate::text::chars_of;

verus! {

/// The order of texts by their characters, the first difference deciding and
/// a prefix coming first. On UTF-8 this is also the order by bytes.
pub open spec fn text_at_most(a: Seq<char>, b: Seq<char>) -> bool
    decreases a.len(),
{
    ||| a.len() == 0
    ||| {
        &&& b.len() > 0
        &&& (a[0] < b[0] || (a[0] == b[0] && text_at_most(a.skip(1), b.skip(1))))
    }
}

pub proof fn lemma_text_total(a: Seq<char>, b: Seq<char>)
    ensures
        text_at_most(a, b) || text_at_most(b, a),
        text_at_most(a, b) && text_at_most(b, a) <==> a == b,
    decreases a.len(),
{
    if a.len() > 0 && b.len() > 0 {
        lemma_text_total(a.skip(1), b.skip(1));
        if text_at_most(a, b) && text_at_most(b, a) {
            assert(a =~= seq![a[0]] + a.skip(1));
            assert(b =~= seq![b[0]] + b.skip(1));
        }
    } else if a.len() == 0 && b.len() == 0 {
        assert(a =~= b);
    }
}

pub proof fn lemma_text_transitive(a: Seq<char>, b: Seq<char>, c: Seq<char>)
    requires
        text_at_most(a, b),
        text_at_most(b, c),
    ensures
        text_at_most(a, c),
    decreases a.len(),
{
    if a.len() > 0 && a[0] == b[0] && b[0] == c[0] {
        lemma_text_transitive(a.skip(1), b.skip(1), c.skip(1));
    }
}

/// The order of texts is decided by the first character in which they differ;
/// a text comes before its continuations, and no continuation before it.
pub proof fn law_first_difference_decides(
    front: Seq<char>,
    x: char,
    y: char,
    rest: Seq<char>,
    other: Seq<char>,
)
    requires
        x != y,
    ensures
        text_at_most(front.push(x) + rest, front.push(y) + other) <==> x < y,
        text_at_most(front, front.push(x) + rest),
        !text_at_most(front.push(x) + rest, front),
    decreases front.len(),
{
    let (a, b) = (front.push(x) + rest, front.push(y) + other);
    if front.len() > 0 {
        let tail = front.skip(1);
        assert(a.skip(1) =~= tail.push(x) + rest);
        assert(b.skip(1) =~= tail.push(y) + other);
        law_first_difference_decides(tail, x, y, rest, other);
    } else {
        assert(a[0] == x && b[0] == y);
    }
}

/// Whether `a` comes no later than `b` in the order of texts.
pub fn text_le(a: &str, b: &str) -> (r: bool)
    ensures
        r == text_at_most(a@, b@),
{
    let x = chars_of(a);
    let y = chars_of(b);
    let mut i: usize = 0;
    assert(x@.skip(0) =~= x@);
    assert(y@.skip(0) =~= y@);
    while i < x.len() && i < y.len() && x[i] == y[i]
        invariant
            i <= x.len(),
            i <= y.len(),
            text_at_most(x@, y@) == text_at_most(x@.skip(i as int), y@.skip(i as int)),
        decreases x.len() - i,
    {
        assert(x@.skip(i as int).skip(1) =~= x@.skip(i + 1));
        assert(y@.skip(i as int).skip(1) =~= y@.skip(i + 1));
        i += 1;
    }
    i == x.len() || (i < y.len() && x[i] < y[i])
}

/// A type whose values stand in a row, some of them possibly side by side.
pub trait Ordered: Sized {
    /// Whether `self` comes no later than `other`.
    spec fn at_most(self, other: Self) -> bool;

    proof fn lemma_total(a: Self, b: Self)
        ensures
            a.at_most(b) || b.at_most(a),
    ;

    proof fn lemma_transitive(a: Self, b: Self, c: Self)
        requires
            a.at_most(b),
            b.at_most(c),
        ensures
            a.at_most(c),
    ;

    fn le(&self, other: &Self) -> (r: bool)
        ensures
            r == self.at_most(*other),
    ;
}

/// Whether nothing in `s` comes earlier than what stands in front of it.
pub open spec fn in_order<T: Ordered>(s: Seq<T>) -> bool {
    forall|i: int, j: int| 0 <= i < j < s.len() ==> (#[trigger] s[i]).at_most(#[trigger] s[j])
}

/// The place behind the last item of `s` that comes no later than `x`.
pub open spec fn place<T: Ordered>(s: Seq<T>, x: T) -> int
    decreases s.len(),
{
    if s.len() == 0 || s.last().at_most(x) {
        s.len() as int
    } else {
        place(s.drop_last(), x)
    }
}

/// The items of `s` in order, those side by side as they stood.
pub open spec fn arranged<T: Ordered>(s: Seq<T>) -> Seq<T>
    decreases s.len(),
{
    if s.len() == 0 {
        s
    } else {
        let front = arranged(s.drop_last());
        front.insert(place(front, s.last()), s.last())
    }
}

proof fn lemma_place<T: Ordered>(s: Seq<T>, x: T)
    ensures
        0 <= place(s, x) <= s.len(),
        place(s, x) > 0 ==> s[place(s, x) - 1].at_most(x),
        forall|j: int| place(s, x) <= j < s.len() ==> !(#[trigger] s[j]).at_most(x),
    decreases s.len(),
{
    if s.len() > 0 && !s.last().at_most(x) {
        lemma_place(s.drop_last(), x);
        assert forall|j: int| place(s, x) <= j < s.len() implies !(#[trigger] s[j]).at_most(x) by {
            if j < s.len() - 1 {
                assert(s.drop_last()[j] == s[j]);
            }
        }
    }
}

proof fn lemma_insert_multiset<T>(s: Seq<T>, i: int, x: T)
    requires
        0 <= i <= s.len(),
    ensures
        s.insert(i, x).to_multiset() == s.to_multiset().insert(x),
{
    broadcast use vstd::seq_lib::group_to_multiset_ensures;

    let t = s.insert(i, x);
    assert(t.remove(i) =~= s);
    assert(t[i] == x);
    assert(t.contains(x));
    vstd::seq_lib::to_multiset_remove(t, i);
    assert(t.to_multiset().remove(x).insert(x) =~= t.to_multiset());
}

/// Arranging keeps every item, as often as it occurs, and puts the items in
/// order.
pub proof fn law_arranged<T: Ordered>(s: Seq<T>)
    ensures
        in_order(arranged(s)),
        arranged(s).to_multiset() == s.to_multiset(),
        arranged(s).len() == s.len(),
    decreases s.len(),
{
    broadcast use vstd::seq_lib::group_to_multiset_ensures;

    if s.len() > 0 {
        let front = arranged(s.drop_last());
        let x = s.last();
        let at = place(front, x);
        let t = front.insert(at, x);
        law_arranged(s.drop_last());
        lemma_place(front, x);
        lemma_insert_multiset(front, at, x);
        assert(s =~= s.drop_last().push(x));
        assert forall|i: int, j: int| 0 <= i < j < t.len() implies (#[trigger] t[i]).at_most(
            #[trigger] t[j],
        ) by {
            if j == at {
                if i < at - 1 {
                    assert(front[i].at_most(front[at - 1]));
                    T::lemma_transitive(front[i], front[at - 1], x);
                }
            } else if i == at {
                assert(t[j] == front[j - 1]);
                T::lemma_total(x, front[j - 1]);
            } else {
                let (i0, j0) = (
                    if i < at {
                        i
                    } else {
                        i - 1
                    },
                    if j < at {
                        j
                    } else {
                        j - 1
                    },
                );
                assert(t[i] == front[i0]);
                assert(t[j] == front[j0]);
            }
        }
    }
}

/// Arranging neither loses nor adds an item.
pub proof fn lemma_arranged_contains<T: Ordered>(s: Seq<T>, x: T)
    ensures
        arranged(s).contains(x) == s.contains(x),
{
    broadcast use vstd::seq_lib::group_to_multiset_ensures;

    law_arranged(s);
    assert(arranged(s).contains(x) <==> arranged(s).to_multiset().count(x) > 0);
    assert(s.contains(x) <==> s.to_multiset().count(x) > 0);
}

/// Arranges one item more.
pub proof fn lemma_arranged_push<T: Ordered>(s: Seq<T>, x: T)
    ensures
        arranged(s.push(x)) == arranged(s).insert(place(arranged(s), x), x),
        0 <= place(arranged(s), x) <= arranged(s).len(),
{
    assert(s.push(x).drop_last() =~= s);
    lemma_place(arranged(s), x);
}

/// Puts `x` behind the last item that comes no later.
pub fn insert_in_order<T: Ordered>(v: &mut Vec<T>, x: T)
    ensures
        final(v)@ == old(v)@.insert(place(old(v)@, x), x),
{
    let mut at: usize = v.len();
    assert(v@.take(at as int) =~= v@);
    while at > 0 && !v[at - 1].le(&x)
        invariant
            at <= v.len(),
            v@ == old(v)@,
            place(v@.take(at as int), x) == place(v@, x),
        decreases at,
    {
        assert(v@.take(at as int).drop_last() =~= v@.take(at - 1));
        at -= 1;
    }
    v.insert(at, x);
}

impl Ordered for String {
    open spec fn at_most(self, other: Self) -> bool {
        text_at_most(self@, other@)
    }

    proof fn lemma_total(a: Self, b: Self) {
        lemma_text_total(a@, b@);
    }

    proof fn lemma_transitive(a: Self, b: Self, c: Self) {
        lemma_text_transitive(a@, b@, c@);
    }

    fn le(&self, other: &Self) -> (r: bool) {
        text_le(self.as_str(), other.as_str())
    }
}

} // verus!
