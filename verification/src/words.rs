//! The words of texts put together.

use vstd::prelude::*;
use crate::text;

verus! {

/// Whether a text is one word.
pub open spec fn is_word(w: Seq<char>) -> bool {
    w.len() > 0 && forall|i: int| 0 <= i < w.len() ==> !text::is_space(#[trigger] w[i])
}

/// Whether a text is white space throughout.
pub open spec fn is_blank(s: Seq<char>) -> bool {
    forall|i: int| 0 <= i < s.len() ==> text::is_space(#[trigger] s[i])
}

/// Whether no word runs from the end of one text into the other.
pub open spec fn apart(a: Seq<char>, b: Seq<char>) -> bool {
    a.len() == 0 || b.len() == 0 || text::is_space(a.last()) || text::is_space(b[0])
}

proof fn start_shifts(a: Seq<char>, b: Seq<char>, i: int)
    requires
        0 <= i <= b.len(),
    ensures
        text::word_start(a + b, a.len() + i) == a.len() + text::word_start(b, i),
        text::word_end(a + b, a.len() + i) == a.len() + text::word_end(b, i),
    decreases b.len() - i,
{
    if i < b.len() {
        assert((a + b)[a.len() + i] == b[i]);
        start_shifts(a, b, i + 1);
    }
}

proof fn words_shift(a: Seq<char>, b: Seq<char>, i: int)
    requires
        0 <= i <= b.len(),
    ensures
        text::words(a + b, a.len() + i) == text::words(b, i),
    decreases b.len() - i,
{
    start_shifts(a, b, i);
    text::word_bounds(b, i);
    let s = text::word_start(b, i);
    if s < b.len() {
        start_shifts(a, b, s);
        text::word_bounds(b, s);
        let e = text::word_end(b, s);
        words_shift(a, b, e);
        assert((a + b).subrange(a.len() + s, a.len() + e) =~= b.subrange(s, e));
    }
}

proof fn bounds_agree(a: Seq<char>, b: Seq<char>, i: int)
    requires
        0 <= i <= a.len(),
    ensures
        text::word_start(a, i) < a.len() ==> text::word_start(a + b, i) == text::word_start(a, i),
        text::word_start(a, i) >= a.len() ==> text::word_start(a + b, i) == a.len() + text::word_start(b, 0),
        text::word_end(a, i) < a.len() ==> text::word_end(a + b, i) == text::word_end(a, i),
        text::word_end(a, i) >= a.len() ==> text::word_end(a + b, i) == a.len() + text::word_end(b, 0),
        text::word_end(a, i) >= a.len() && i < a.len() ==> !text::is_space(a.last()),
    decreases a.len() - i,
{
    if i < a.len() {
        assert((a + b)[i] == a[i]);
        bounds_agree(a, b, i + 1);
        text::word_bounds(a, i);
    } else {
        start_shifts(a, b, 0);
    }
}

proof fn words_join_from(a: Seq<char>, b: Seq<char>, i: int)
    requires
        0 <= i <= a.len(),
        apart(a, b),
    ensures
        text::words(a + b, i) == text::words(a, i) + text::words(b, 0),
    decreases a.len() - i,
{
    bounds_agree(a, b, i);
    text::word_bounds(a, i);
    text::word_bounds(b, 0);
    text::word_bounds(a + b, i);
    let s = text::word_start(a, i);
    if s < a.len() {
        bounds_agree(a, b, s);
        text::word_bounds(a, s);
        let e = text::word_end(a, s);
        assert(text::word_end(a + b, s) == e) by {
            if e >= a.len() {
                if b.len() > 0 {
                    assert(text::is_space(b[0]));
                }
            }
        }
        assert((a + b).subrange(s, e) =~= a.subrange(s, e));
        words_join_from(a, b, e);
        assert(text::words(a + b, i) =~= seq![a.subrange(s, e)] + (text::words(a, e) + text::words(b, 0)));
        assert(text::words(a, i) == seq![a.subrange(s, e)] + text::words(a, e));
        assert(text::words(a + b, i) =~= text::words(a, i) + text::words(b, 0));
    } else {
        words_shift(a, b, 0);
        assert(text::words(a, i) =~= Seq::<Seq<char>>::empty());
        let t = text::word_start(b, 0);
        if t < b.len() {
            start_shifts(a, b, t);
            text::word_bounds(b, t);
            let e = text::word_end(b, t);
            words_shift(a, b, e);
            assert((a + b).subrange(a.len() + t, a.len() + e) =~= b.subrange(t, e));
        }
        assert(text::words(a + b, i) =~= text::words(b, 0));
    }
}

/// The words of two texts of which no word runs into the other.
pub proof fn words_join(a: Seq<char>, b: Seq<char>)
    requires
        apart(a, b),
    ensures
        text::words(a + b, 0) == text::words(a, 0) + text::words(b, 0),
{
    words_join_from(a, b, 0);
}

/// White space has no words.
pub proof fn blank_has_no_words(s: Seq<char>)
    requires
        is_blank(s),
    ensures
        text::words(s, 0) == Seq::<Seq<char>>::empty(),
{
    blank_start(s, 0);
}

proof fn blank_start(s: Seq<char>, i: int)
    requires
        is_blank(s),
        0 <= i <= s.len(),
    ensures
        text::word_start(s, i) == s.len(),
    decreases s.len() - i,
{
    if i < s.len() {
        blank_start(s, i + 1);
    }
}

proof fn word_runs(w: Seq<char>, i: int)
    requires
        is_word(w),
        0 <= i <= w.len(),
    ensures
        text::word_end(w, i) == w.len(),
    decreases w.len() - i,
{
    if i < w.len() {
        word_runs(w, i + 1);
    }
}

/// A word is its only word.
pub proof fn word_is_one(w: Seq<char>)
    requires
        is_word(w),
    ensures
        text::words(w, 0) == seq![w],
        !text::is_space(w[0]),
        !text::is_space(w.last()),
{
    word_runs(w, 0);
    assert(text::word_start(w, 0) == 0);
    assert(w.subrange(0, w.len() as int) =~= w);
    assert(text::word_start(w, w.len() as int) == w.len());
    assert(text::words(w, w.len() as int) =~= Seq::<Seq<char>>::empty());
    assert(text::words(w, 0) =~= seq![w]);
}

/// The words of a text and a word with a blank between them.
pub proof fn words_and_word(a: Seq<char>, gap: Seq<char>, w: Seq<char>)
    requires
        is_word(w),
        is_blank(gap),
        gap.len() > 0,
    ensures
        text::words(a + gap + w, 0) == text::words(a, 0).push(w),
{
    words_join(a, gap);
    blank_has_no_words(gap);
    assert((a + gap).last() == gap.last());
    words_join(a + gap, w);
    word_is_one(w);
    assert(text::words(a, 0) + Seq::<Seq<char>>::empty() =~= text::words(a, 0));
    assert(text::words(a + gap + w, 0) =~= text::words(a, 0).push(w));
}

/// The words of two texts with a blank between them.
pub proof fn words_across(a: Seq<char>, gap: Seq<char>, b: Seq<char>)
    requires
        is_blank(gap),
        gap.len() > 0,
    ensures
        text::words(a + gap + b, 0) == text::words(a, 0) + text::words(b, 0),
{
    words_join(a, gap);
    blank_has_no_words(gap);
    assert((a + gap).last() == gap.last());
    words_join(a + gap, b);
    assert(text::words(a, 0) + Seq::<Seq<char>>::empty() =~= text::words(a, 0));
}

/// White space around a text adds no words.
pub proof fn words_within(before: Seq<char>, s: Seq<char>, after: Seq<char>)
    requires
        is_blank(before),
        is_blank(after),
    ensures
        text::words(before + s + after, 0) == text::words(s, 0),
{
    blank_has_no_words(before);
    blank_has_no_words(after);
    words_join(before, s);
    assert(Seq::<Seq<char>>::empty() + text::words(s, 0) =~= text::words(s, 0));
    words_join(before + s, after);
    assert(text::words(s, 0) + Seq::<Seq<char>>::empty() =~= text::words(s, 0));
}

/// A single blank.
pub proof fn blanks_are_blank()
    ensures
        is_blank(" "@),
        is_blank("  "@),
        " "@.len() == 1,
        "  "@.len() == 2,
{
    reveal_strlit(" ");
    reveal_strlit("  ");
}

/// A number in decimal is one word.
pub proof fn decimal_is_word(n: int)
    requires
        n >= 0,
    ensures
        is_word(text::dec(n)),
    decreases n,
{
    if n >= 10 {
        decimal_is_word(n / 10);
        let d = text::dec(n);
        assert forall|i: int| 0 <= i < d.len() implies !text::is_space(#[trigger] d[i]) by {
            if i < d.len() - 1 {
                assert(d[i] == text::dec(n / 10)[i]);
            }
        }
    }
}

/// Different numbers differ in decimal.
pub proof fn decimals_differ(a: int, b: int)
    requires
        a >= 0,
        b >= 0,
    ensures
        text::dec(a) == text::dec(b) ==> a == b,
{
    text::dec_value(a);
    text::dec_value(b);
}

} // verus!
