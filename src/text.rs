//! Characters on screen: the width of text in which terminal style directives take no room.
use vstd::prelude::*;

verus! {

/// The escape character that opens a terminal style directive.
pub const ESC: char = '\x1b';

/// A character that ends a style directive (`ESC [ ... m`).
pub open spec fn is_final(c: char) -> bool {
    ('A' <= c && c <= 'Z') || ('a' <= c && c <= 'z')
}

/// Whether a directive is still open after reading `c`, given whether one was open before.
pub open spec fn esc_after(open: bool, c: char) -> bool {
    if open {
        !is_final(c)
    } else {
        c == ESC
    }
}

/// Whether `c` shows on screen when read in the given state.
pub open spec fn shows(open: bool, c: char) -> bool {
    !open && c != ESC
}

/// Number of characters of `s` that show on screen, read from the given state.
pub open spec fn visible_from(s: Seq<char>, open: bool) -> nat
    decreases s.len(),
{
    if s.len() == 0 {
        0
    } else {
        (if shows(open, s[0]) { 1nat } else { 0nat }) + visible_from(
            s.drop_first(),
            esc_after(open, s[0]),
        )
    }
}

/// The state reached after reading all of `s` from the given state.
pub open spec fn state_after(s: Seq<char>, open: bool) -> bool
    decreases s.len(),
{
    if s.len() == 0 {
        open
    } else {
        state_after(s.drop_first(), esc_after(open, s[0]))
    }
}

/// Number of characters of `s` that show on screen: style directives take no width.
pub open spec fn visible_len(s: Seq<char>) -> nat {
    visible_from(s, false)
}

pub proof fn lemma_visible_concat(a: Seq<char>, b: Seq<char>, open: bool)
    ensures
        visible_from(a + b, open) == visible_from(a, open) + visible_from(b, state_after(a, open)),
        state_after(a + b, open) == state_after(b, state_after(a, open)),
    decreases a.len(),
{
    if a.len() == 0 {
        assert(a + b =~= b);
    } else {
        assert((a + b).drop_first() =~= a.drop_first() + b);
        lemma_visible_concat(a.drop_first(), b, esc_after(open, a[0]));
    }
}

pub proof fn lemma_visible_one(c: char, open: bool)
    ensures
        visible_from(seq![c], open) == (if shows(open, c) { 1nat } else { 0nat }),
        state_after(seq![c], open) == esc_after(open, c),
{
    assert(seq![c].drop_first() =~= Seq::<char>::empty());
    assert(visible_from(seq![c].drop_first(), esc_after(open, c)) == 0);
    assert(state_after(seq![c].drop_first(), esc_after(open, c)) == esc_after(open, c));
}

pub proof fn lemma_visible_open_le(s: Seq<char>)
    ensures
        visible_from(s, true) <= visible_from(s, false),
    decreases s.len(),
{
    if s.len() > 0 {
        lemma_visible_open_le(s.drop_first());
    }
}

pub proof fn lemma_visible_le_len(s: Seq<char>, open: bool)
    ensures
        visible_from(s, open) <= s.len(),
    decreases s.len(),
{
    if s.len() > 0 {
        lemma_visible_le_len(s.drop_first(), esc_after(open, s[0]));
    }
}

/// The characters of `s`, in order.
pub fn chars_of(s: &str) -> (r: Vec<char>)
    ensures
        r@ == s@,
{
    let mut v: Vec<char> = Vec::new();
    for c in it: s.chars()
        invariant
            v@ == it.seq().take(it.index() as int),
    {
        v.push(c);
    }
    v
}

/// The characters of `v` from index `from` up to, not including, `to`.
pub fn sub_chars(v: &Vec<char>, from: usize, to: usize) -> (r: Vec<char>)
    requires
        from <= to <= v.len(),
    ensures
        r@ == v@.subrange(from as int, to as int),
{
    let mut out: Vec<char> = Vec::new();
    let mut k: usize = from;
    while k < to
        invariant
            from <= k <= to,
            to <= v.len(),
            out@ == v@.subrange(from as int, k as int),
        decreases to - k,
    {
        out.push(v[k]);
        k = k + 1;
        assert(out@ =~= v@.subrange(from as int, k as int));
    }
    out
}

/// Relies on std's `FromIterator<char>` for `String`: the string of the given characters.
#[verifier::external_body]
pub fn string_of(chars: &Vec<char>) -> (r: String)
    ensures
        r@ == chars@,
{
    chars.iter().collect()
}

/// Number of characters of `s` that show on screen.
pub fn visible_count(s: &Vec<char>) -> (r: usize)
    ensures
        r == visible_len(s@),
{
    let mut n: usize = 0;
    let mut open = false;
    let mut i: usize = 0;
    while i < s.len()
        invariant
            i <= s.len(),
            n == visible_from(s@.take(i as int), false),
            open == state_after(s@.take(i as int), false),
            n <= i,
        decreases s.len() - i,
    {
        let c = s[i];
        proof {
            let a = s@.take(i as int);
            assert(s@.take(i + 1) =~= a + seq![c]);
            lemma_visible_concat(a, seq![c], false);
            lemma_visible_le_len(a, false);
            lemma_visible_one(c, open);
        }
        if !open && c != ESC {
            n = n + 1;
        }
        open = if open { !(('A' <= c && c <= 'Z') || ('a' <= c && c <= 'z')) } else { c == ESC };
        i = i + 1;
    }
    assert(s@.take(s.len() as int) =~= s@);
    n
}

} // verus!
