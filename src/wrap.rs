//! Word wrapping: words, pieces of over-long words, and the greedy layout of display lines.
use vstd::prelude::*;
use crate::text::{
    ESC, esc_after, shows, visible_len, visible_from, state_after, lemma_visible_concat,
    lemma_visible_one, lemma_visible_open_le, visible_count,
};

verus! {

/// The views of a sequence of character vectors.
pub open spec fn views(v: Seq<Vec<char>>) -> Seq<Seq<char>> {
    v.map_values(|x: Vec<char>| x@)
}

/// Characters that separate words.
pub open spec fn is_space(c: char) -> bool {
    c == ' ' || c == '\t' || c == '\n' || c == '\r'
}

/// The token by which a style policy asks for a hard break.
pub open spec fn break_marker() -> Seq<char> {
    seq!['N', 'E', 'W', '_', 'L', 'I', 'N', 'E']
}

/// Splitting into words, one character at a time: the finished words and the word being read.
pub open spec fn split_step(st: (Seq<Seq<char>>, Seq<char>), c: char) -> (Seq<Seq<char>>, Seq<char>) {
    if is_space(c) {
        (if st.1.len() > 0 { st.0.push(st.1) } else { st.0 }, Seq::empty())
    } else {
        (st.0, st.1.push(c))
    }
}

pub open spec fn split_scan(s: Seq<char>) -> (Seq<Seq<char>>, Seq<char>)
    decreases s.len(),
{
    if s.len() == 0 {
        (Seq::empty(), Seq::empty())
    } else {
        split_step(split_scan(s.drop_last()), s.last())
    }
}

/// The maximal runs of non-space characters of `s`, in order.
pub open spec fn words_of(s: Seq<char>) -> Seq<Seq<char>> {
    let st = split_scan(s);
    if st.1.len() > 0 { st.0.push(st.1) } else { st.0 }
}

/// Cutting a word into pieces of at most `w` visible characters: the finished pieces, the
/// piece being read, its visible count, and whether a style directive is open in it.
pub open spec fn chunk_step(st: (Seq<Seq<char>>, Seq<char>, nat, bool), c: char, w: nat) -> (
    Seq<Seq<char>>,
    Seq<char>,
    nat,
    bool,
) {
    if shows(st.3, c) && st.2 >= w && st.1.len() > 0 {
        (st.0.push(st.1), seq![c], 1, false)
    } else {
        (st.0, st.1.push(c), st.2 + if shows(st.3, c) { 1nat } else { 0nat }, esc_after(st.3, c))
    }
}

pub open spec fn chunk_scan(s: Seq<char>, w: nat) -> (Seq<Seq<char>>, Seq<char>, nat, bool)
    decreases s.len(),
{
    if s.len() == 0 {
        (Seq::empty(), Seq::empty(), 0, false)
    } else {
        chunk_step(chunk_scan(s.drop_last(), w), s.last(), w)
    }
}

/// The pieces of `word` when it is cut before each visible character that would pass `w`.
pub open spec fn chunks_of(word: Seq<char>, w: nat) -> Seq<Seq<char>> {
    let st = chunk_scan(word, w);
    if st.1.len() > 0 { st.0.push(st.1) } else { st.0 }
}

/// The finished lines of a layout state, with the line being filled if it holds anything.
pub open spec fn flush(st: (Seq<Seq<char>>, Seq<char>, nat)) -> Seq<Seq<char>> {
    if st.1.len() > 0 { st.0.push(st.1) } else { st.0 }
}

/// Greedy placement of one piece: it joins the current line when the line's width, a space
/// and the piece stay within `w`; else the line is finished and the piece starts the next.
pub open spec fn place(st: (Seq<Seq<char>>, Seq<char>, nat), p: Seq<char>, w: nat) -> (
    Seq<Seq<char>>,
    Seq<char>,
    nat,
) {
    let v = visible_len(p);
    if st.1.len() == 0 {
        (st.0, p, v)
    } else if st.2 + 1 + v <= w {
        (st.0, st.1 + seq![' '] + p, st.2 + 1 + v)
    } else {
        (st.0.push(st.1), p, v)
    }
}

pub open spec fn place_all(st: (Seq<Seq<char>>, Seq<char>, nat), ps: Seq<Seq<char>>, w: nat) -> (
    Seq<Seq<char>>,
    Seq<char>,
    nat,
)
    decreases ps.len(),
{
    if ps.len() == 0 {
        st
    } else {
        place(place_all(st, ps.drop_last(), w), ps.last(), w)
    }
}

/// One word of the layout: a break marker finishes the current line and adds an empty one.
pub open spec fn layout_step(st: (Seq<Seq<char>>, Seq<char>, nat), word: Seq<char>, w: nat) -> (
    Seq<Seq<char>>,
    Seq<char>,
    nat,
) {
    if word == break_marker() {
        (flush(st).push(Seq::empty()), Seq::empty(), 0)
    } else {
        place_all(st, chunks_of(word, w), w)
    }
}

pub open spec fn layout_scan(words: Seq<Seq<char>>, w: nat) -> (Seq<Seq<char>>, Seq<char>, nat)
    decreases words.len(),
{
    if words.len() == 0 {
        (Seq::empty(), Seq::empty(), 0)
    } else {
        layout_step(layout_scan(words.drop_last(), w), words.last(), w)
    }
}

/// The display lines of one line of text wrapped at `w` visible characters.
pub open spec fn wrap_text(s: Seq<char>, w: nat) -> Seq<Seq<char>> {
    flush(layout_scan(words_of(s), w))
}

/// Every line of `lines` has at most `w` visible characters.
pub open spec fn all_fit(lines: Seq<Seq<char>>, w: nat) -> bool {
    forall|i: int| 0 <= i < lines.len() ==> #[trigger] visible_len(lines[i]) <= w
}

spec fn chunk_ok(st: (Seq<Seq<char>>, Seq<char>, nat, bool), w: nat) -> bool {
    &&& visible_len(st.1) == st.2
    &&& state_after(st.1, false) == st.3
    &&& st.2 <= w
    &&& (st.1.len() == 0 ==> st.2 == 0 && !st.3)
    &&& all_fit(st.0, w)
}

proof fn lemma_all_fit_push(lines: Seq<Seq<char>>, x: Seq<char>, w: nat)
    requires
        all_fit(lines, w),
        visible_len(x) <= w,
    ensures
        all_fit(lines.push(x), w),
{
    assert forall|i: int| 0 <= i < lines.push(x).len() implies #[trigger] visible_len(
        lines.push(x)[i],
    ) <= w by {
        if i < lines.len() {
            assert(lines.push(x)[i] == lines[i]);
        }
    }
}

proof fn lemma_chunk_scan_ok(s: Seq<char>, w: nat)
    requires
        w >= 1,
    ensures
        chunk_ok(chunk_scan(s, w), w),
    decreases s.len(),
{
    if s.len() == 0 {
        assert(visible_len(Seq::<char>::empty()) == 0);
    } else {
        lemma_chunk_scan_ok(s.drop_last(), w);
        let st = chunk_scan(s.drop_last(), w);
        let c = s.last();
        if shows(st.3, c) && st.2 >= w && st.1.len() > 0 {
            lemma_visible_one(c, false);
            lemma_all_fit_push(st.0, st.1, w);
        } else {
            lemma_visible_concat(st.1, seq![c], false);
            lemma_visible_one(c, st.3);
            if st.1.len() == 0 {
                assert(st.1.push(c) =~= seq![c]);
            }
            assert(st.1.push(c) =~= st.1 + seq![c]);
        }
    }
}

/// Each piece of a word cut at `w >= 1` has at most `w` visible characters.
pub proof fn lemma_chunks_fit(word: Seq<char>, w: nat)
    requires
        w >= 1,
    ensures
        all_fit(chunks_of(word, w), w),
{
    lemma_chunk_scan_ok(word, w);
    let st = chunk_scan(word, w);
    if st.1.len() > 0 {
        lemma_all_fit_push(st.0, st.1, w);
    }
}

spec fn layout_ok(st: (Seq<Seq<char>>, Seq<char>, nat), w: nat) -> bool {
    &&& visible_len(st.1) <= st.2
    &&& st.2 <= w
    &&& all_fit(st.0, w)
}

proof fn lemma_place_ok(st: (Seq<Seq<char>>, Seq<char>, nat), p: Seq<char>, w: nat)
    requires
        layout_ok(st, w),
        visible_len(p) <= w,
    ensures
        layout_ok(place(st, p, w), w),
{
    let v = visible_len(p);
    if st.1.len() == 0 {
    } else if st.2 + 1 + v <= w {
        let sp = seq![' '];
        lemma_visible_concat(st.1, sp + p, false);
        lemma_visible_concat(sp, p, state_after(st.1, false));
        lemma_visible_one(' ', state_after(st.1, false));
        let s2 = state_after(sp, state_after(st.1, false));
        if s2 {
            lemma_visible_open_le(p);
        }
        assert(st.1 + sp + p =~= st.1 + (sp + p));
    } else {
        lemma_all_fit_push(st.0, st.1, w);
    }
}

proof fn lemma_place_all_ok(st: (Seq<Seq<char>>, Seq<char>, nat), ps: Seq<Seq<char>>, w: nat)
    requires
        layout_ok(st, w),
        all_fit(ps, w),
    ensures
        layout_ok(place_all(st, ps, w), w),
    decreases ps.len(),
{
    if ps.len() > 0 {
        assert(all_fit(ps.drop_last(), w)) by {
            assert forall|i: int| 0 <= i < ps.drop_last().len() implies #[trigger] visible_len(
                ps.drop_last()[i],
            ) <= w by {
                assert(ps.drop_last()[i] == ps[i]);
            }
        }
        lemma_place_all_ok(st, ps.drop_last(), w);
        assert(visible_len(ps[ps.len() - 1]) <= w);
        lemma_place_ok(place_all(st, ps.drop_last(), w), ps.last(), w);
    }
}

proof fn lemma_layout_scan_ok(words: Seq<Seq<char>>, w: nat)
    requires
        w >= 1,
    ensures
        layout_ok(layout_scan(words, w), w),
    decreases words.len(),
{
    if words.len() == 0 {
        assert(visible_len(Seq::<char>::empty()) == 0);
    } else {
        lemma_layout_scan_ok(words.drop_last(), w);
        let st = layout_scan(words.drop_last(), w);
        let word = words.last();
        if word == break_marker() {
            if st.1.len() > 0 {
                lemma_all_fit_push(st.0, st.1, w);
            }
            assert(visible_len(Seq::<char>::empty()) == 0);
            lemma_all_fit_push(flush(st), Seq::empty(), w);
        } else {
            lemma_chunks_fit(word, w);
            lemma_place_all_ok(st, chunks_of(word, w), w);
        }
    }
}

/// Every line of a text wrapped at `w >= 1` has at most `w` visible characters.
pub proof fn lemma_wrap_fits(s: Seq<char>, w: nat)
    requires
        w >= 1,
    ensures
        all_fit(wrap_text(s, w), w),
{
    let st = layout_scan(words_of(s), w);
    lemma_layout_scan_ok(words_of(s), w);
    if st.1.len() > 0 {
        lemma_all_fit_push(st.0, st.1, w);
    }
}

pub fn is_space_char(c: char) -> (r: bool)
    ensures
        r == is_space(c),
{
    c == ' ' || c == '\t' || c == '\n' || c == '\r'
}

proof fn lemma_views_push(v: Seq<Vec<char>>, x: Vec<char>)
    ensures
        views(v.push(x)) == views(v).push(x@),
{
    assert(views(v.push(x)) =~= views(v).push(x@));
}

/// The words of `s`.
pub fn split_words(s: &Vec<char>) -> (r: Vec<Vec<char>>)
    ensures
        views(r@) == words_of(s@),
{
    let mut done: Vec<Vec<char>> = Vec::new();
    let mut cur: Vec<char> = Vec::new();
    let mut i: usize = 0;
    assert(s@.take(0) =~= Seq::<char>::empty());
    assert(views(done@) =~= Seq::<Seq<char>>::empty());
    while i < s.len()
        invariant
            i <= s.len(),
            (views(done@), cur@) == split_scan(s@.take(i as int)),
        decreases s.len() - i,
    {
        let c = s[i];
        assert(s@.take(i + 1).drop_last() =~= s@.take(i as int));
        if is_space_char(c) {
            if cur.len() > 0 {
                proof {
                    lemma_views_push(done@, cur);
                }
                done.push(cur);
            }
            cur = Vec::new();
        } else {
            cur.push(c);
        }
        i = i + 1;
    }
    assert(s@.take(s.len() as int) =~= s@);
    if cur.len() > 0 {
        proof {
            lemma_views_push(done@, cur);
        }
        done.push(cur);
    }
    done
}

/// The pieces of `word` cut at `w` visible characters.
pub fn chunk_word(word: &Vec<char>, w: usize) -> (r: Vec<Vec<char>>)
    ensures
        views(r@) == chunks_of(word@, w as nat),
{
    let mut done: Vec<Vec<char>> = Vec::new();
    let mut cur: Vec<char> = Vec::new();
    let mut cnt: usize = 0;
    let mut open = false;
    let mut i: usize = 0;
    assert(word@.take(0) =~= Seq::<char>::empty());
    assert(views(done@) =~= Seq::<Seq<char>>::empty());
    while i < word.len()
        invariant
            i <= word.len(),
            (views(done@), cur@, cnt as nat, open) == chunk_scan(word@.take(i as int), w as nat),
            cnt <= i,
        decreases word.len() - i,
    {
        let c = word[i];
        assert(word@.take(i + 1).drop_last() =~= word@.take(i as int));
        let vis = !open && c != ESC;
        if vis && cnt >= w && cur.len() > 0 {
            proof {
                lemma_views_push(done@, cur);
            }
            done.push(cur);
            cur = Vec::new();
            cur.push(c);
            assert(cur@ =~= seq![c]);
            cnt = 1;
            open = false;
        } else {
            cur.push(c);
            if vis {
                cnt = cnt + 1;
            }
            open = if open { !(('A' <= c && c <= 'Z') || ('a' <= c && c <= 'z')) } else { c == ESC };
        }
        i = i + 1;
    }
    assert(word@.take(word.len() as int) =~= word@);
    if cur.len() > 0 {
        proof {
            lemma_views_push(done@, cur);
        }
        done.push(cur);
    }
    done
}

/// Appends the characters of `src` to `dst`.
pub fn append_chars(dst: &mut Vec<char>, src: &Vec<char>)
    ensures
        final(dst)@ == old(dst)@ + src@,
{
    let mut i: usize = 0;
    while i < src.len()
        invariant
            i <= src.len(),
            dst@ == old(dst)@ + src@.take(i as int),
        decreases src.len() - i,
    {
        dst.push(src[i]);
        i = i + 1;
        assert(dst@ =~= old(dst)@ + src@.take(i as int));
    }
    assert(src@.take(src.len() as int) =~= src@);
}

/// Whether `word` is the break marker.
pub fn is_break_marker(word: &Vec<char>) -> (r: bool)
    ensures
        r == (word@ == break_marker()),
{
    let m = vec!['N', 'E', 'W', '_', 'L', 'I', 'N', 'E'];
    assert(m@ =~= break_marker());
    if word.len() != m.len() {
        return false;
    }
    let mut i: usize = 0;
    while i < m.len()
        invariant
            i <= m.len(),
            word.len() == m.len(),
            m@ == break_marker(),
            forall|j: int| 0 <= j < i ==> word@[j] == m@[j],
        decreases m.len() - i,
    {
        if word[i] != m[i] {
            return false;
        }
        i = i + 1;
    }
    assert(word@ =~= m@);
    true
}

/// The display lines of `s` wrapped at `w` visible characters.
pub fn wrap_line(s: &Vec<char>, w: usize) -> (r: Vec<Vec<char>>)
    ensures
        views(r@) == wrap_text(s@, w as nat),
{
    let words = split_words(s);
    let mut out: Vec<Vec<char>> = Vec::new();
    let mut line: Vec<char> = Vec::new();
    let mut used: usize = 0;
    let mut k: usize = 0;
    assert(views(words@).take(0) =~= Seq::<Seq<char>>::empty());
    assert(views(out@) =~= Seq::<Seq<char>>::empty());
    while k < words.len()
        invariant
            k <= words.len(),
            views(words@) == words_of(s@),
            (views(out@), line@, used as nat) == layout_scan(views(words@).take(k as int), w as nat),
        decreases words.len() - k,
    {
        let ghost ws = views(words@);
        assert(ws.take(k + 1).drop_last() =~= ws.take(k as int));
        assert(ws.take(k + 1).last() == words@[k as int]@);
        let word = &words[k];
        if is_break_marker(word) {
            if line.len() > 0 {
                proof {
                    lemma_views_push(out@, line);
                }
                out.push(line);
            }
            let empty: Vec<char> = Vec::new();
            proof {
                lemma_views_push(out@, empty);
                assert(empty@ =~= Seq::<char>::empty());
            }
            out.push(empty);
            line = Vec::new();
            used = 0;
        } else {
            let pieces = chunk_word(word, w);
            let ghost st0 = (views(out@), line@, used as nat);
            let mut j: usize = 0;
            assert(views(pieces@).take(0) =~= Seq::<Seq<char>>::empty());
            while j < pieces.len()
                invariant
                    j <= pieces.len(),
                    views(pieces@) == chunks_of(word@, w as nat),
                    (views(out@), line@, used as nat) == place_all(st0, views(pieces@).take(j as int), w as nat),
                decreases pieces.len() - j,
            {
                let ghost ps = views(pieces@);
                assert(ps.take(j + 1).drop_last() =~= ps.take(j as int));
                assert(ps.take(j + 1).last() == pieces@[j as int]@);
                let p = &pieces[j];
                let v = visible_count(p);
                if line.len() == 0 {
                    line = Vec::new();
                    append_chars(&mut line, p);
                    assert(line@ =~= p@);
                    used = v;
                } else if v < w && used <= w - 1 - v {
                    line.push(' ');
                    append_chars(&mut line, p);
                    used = used + 1 + v;
                } else {
                    proof {
                        lemma_views_push(out@, line);
                    }
                    out.push(line);
                    line = Vec::new();
                    append_chars(&mut line, p);
                    assert(line@ =~= p@);
                    used = v;
                }
                j = j + 1;
            }
            assert(views(pieces@).take(pieces.len() as int) =~= views(pieces@));
        }
        k = k + 1;
    }
    assert(views(words@).take(words.len() as int) =~= views(words@));
    if line.len() > 0 {
        proof {
            lemma_views_push(out@, line);
        }
        out.push(line);
    }
    out
}

} // verus!
