//! The markup renderer: recognised tag spans resolved through a style policy, then wrapped.
use vstd::prelude::*;
use crate::styler::Styler;
use crate::text::{chars_of, string_of, sub_chars};
use crate::wrap::{views, wrap_text, wrap_line, append_chars, is_space, is_space_char, all_fit, lemma_wrap_fits};

verus! {

/// The recognised markup tags, shortest names first.
pub open spec fn tag_names() -> Seq<Seq<char>> {
    seq![
        seq!['a'],
        seq!['b'],
        seq!['i'],
        seq!['p'],
        seq!['q'],
        seq!['d', 'd'],
        seq!['d', 't'],
        seq!['e', 'm'],
        seq!['h', '1'],
        seq!['h', '2'],
        seq!['h', '3'],
        seq!['h', '4'],
        seq!['h', '5'],
        seq!['h', '6'],
        seq!['l', 'i'],
        seq!['d', 'i', 'v'],
        seq!['s', 'p', 'a', 'n'],
        seq!['b', 'l', 'o', 'c', 'k', 'q', 'u', 'o', 't', 'e'],
    ]
}

/// `pat` stands in `s` from index `i` on.
pub open spec fn occurs_at(s: Seq<char>, pat: Seq<char>, i: int) -> bool {
    0 <= i && i + pat.len() <= s.len() && s.subrange(i, i + pat.len()) == pat
}

/// The first index at or after `from` where `pat` stands in `s`.
pub open spec fn find_from(s: Seq<char>, pat: Seq<char>, from: int) -> Option<int>
    decreases s.len() + 1 - from,
{
    if from < 0 || from + pat.len() > s.len() {
        None
    } else if occurs_at(s, pat, from) {
        Some(from)
    } else {
        find_from(s, pat, from + 1)
    }
}

/// The closing tag of `name`.
pub open spec fn closing(name: Seq<char>) -> Seq<char> {
    seq!['<', '/'] + name + seq!['>']
}

/// Where the content starts when an opening tag of `name` stands at `i`: the tag is `<name>`,
/// or `<name` and a space, then anything up to the first `>`.
pub open spec fn open_end(s: Seq<char>, i: int, name: Seq<char>) -> Option<int> {
    let j = i + 1 + name.len();
    if occurs_at(s, seq!['<'] + name, i) && j < s.len() {
        if s[j] == '>' {
            Some(j + 1)
        } else if is_space(s[j]) {
            match find_from(s, seq!['>'], j + 1) {
                Some(k) => Some(k + 1),
                None => None,
            }
        } else {
            None
        }
    } else {
        None
    }
}

/// A span of tag `name` at `i`: content start, content end, and the end of the closing tag,
/// which is the first one after the opening tag.
pub open spec fn span_with(s: Seq<char>, i: int, name: Seq<char>) -> Option<(int, int, int)> {
    match open_end(s, i, name) {
        Some(cs) => match find_from(s, closing(name), cs) {
            Some(ce) => Some((cs, ce, ce + closing(name).len())),
            None => None,
        },
        None => None,
    }
}

/// The first recognised tag, from the `t`-th on, whose span stands at `i`.
pub open spec fn span_from_tag(s: Seq<char>, i: int, t: int) -> Option<(int, int, int, int)>
    decreases tag_names().len() - t,
{
    if t < 0 || t >= tag_names().len() {
        None
    } else {
        match span_with(s, i, tag_names()[t]) {
            Some(sp) => Some((t, sp.0, sp.1, sp.2)),
            None => span_from_tag(s, i, t + 1),
        }
    }
}

/// The left-most span of a recognised tag at or after `from`: its start, tag, content start,
/// content end and end.
pub open spec fn first_span(s: Seq<char>, from: int) -> Option<(int, int, int, int, int)>
    decreases s.len() - from,
{
    if from < 0 || from >= s.len() {
        None
    } else {
        match span_from_tag(s, from, 0) {
            Some(sp) => Some((from, sp.0, sp.1, sp.2, sp.3)),
            None => first_span(s, from + 1),
        }
    }
}

/// Whether a span found in `s` lies in order within it.
pub open spec fn span_fits(s: Seq<char>, sp: (int, int, int, int, int)) -> bool {
    0 <= sp.0 < sp.2 <= sp.3 <= sp.4 <= s.len() && 0 <= sp.1 < tag_names().len()
}

/// `s` with each recognised tag span replaced by the style policy's decoration of its resolved
/// content; text before the left-most span stays literal, and the rest is resolved in turn.
pub open spec fn resolve<S: Styler>(s: Seq<char>, styler: &S) -> Seq<char>
    decreases s.len(),
{
    match first_span(s, 0) {
        Some(sp) => if span_fits(s, sp) {
            s.take(sp.0) + styler.styled(resolve(s.subrange(sp.2, sp.3), styler), tag_names()[sp.1])
                + resolve(s.skip(sp.4), styler)
        } else {
            s
        },
        None => s,
    }
}

/// The display lines of raw markup lines: each line resolved, then wrapped at `w`.
pub open spec fn render_lines<S: Styler>(lines: Seq<Seq<char>>, styler: &S, w: nat) -> Seq<Seq<char>>
    decreases lines.len(),
{
    if lines.len() == 0 {
        Seq::empty()
    } else {
        render_lines(lines.drop_last(), styler, w) + wrap_text(resolve(lines.last(), styler), w)
    }
}

/// The width used for wrapping: a width of zero wraps as one.
pub open spec fn wrap_width(target_width: u16) -> nat {
    if target_width == 0 { 1 } else { target_width as nat }
}

/// The views of a sequence of strings.
pub open spec fn string_views(v: Seq<String>) -> Seq<Seq<char>> {
    v.map_values(|x: String| x@)
}

/// The recognised tag names.
pub(crate) fn recognized_tags() -> (r: Vec<Vec<char>>)
    ensures
        views(r@) == tag_names(),
{
    let r = vec![
        vec!['a'],
        vec!['b'],
        vec!['i'],
        vec!['p'],
        vec!['q'],
        vec!['d', 'd'],
        vec!['d', 't'],
        vec!['e', 'm'],
        vec!['h', '1'],
        vec!['h', '2'],
        vec!['h', '3'],
        vec!['h', '4'],
        vec!['h', '5'],
        vec!['h', '6'],
        vec!['l', 'i'],
        vec!['d', 'i', 'v'],
        vec!['s', 'p', 'a', 'n'],
        vec!['b', 'l', 'o', 'c', 'k', 'q', 'u', 'o', 't', 'e'],
    ];
    proof {
        assert(r@[0]@ =~= tag_names()[0]);
        assert(r@[1]@ =~= tag_names()[1]);
        assert(r@[2]@ =~= tag_names()[2]);
        assert(r@[3]@ =~= tag_names()[3]);
        assert(r@[4]@ =~= tag_names()[4]);
        assert(r@[5]@ =~= tag_names()[5]);
        assert(r@[6]@ =~= tag_names()[6]);
        assert(r@[7]@ =~= tag_names()[7]);
        assert(r@[8]@ =~= tag_names()[8]);
        assert(r@[9]@ =~= tag_names()[9]);
        assert(r@[10]@ =~= tag_names()[10]);
        assert(r@[11]@ =~= tag_names()[11]);
        assert(r@[12]@ =~= tag_names()[12]);
        assert(r@[13]@ =~= tag_names()[13]);
        assert(r@[14]@ =~= tag_names()[14]);
        assert(r@[15]@ =~= tag_names()[15]);
        assert(r@[16]@ =~= tag_names()[16]);
        assert(r@[17]@ =~= tag_names()[17]);
    }
    assert(views(r@) =~= tag_names());
    r
}

/// Whether `pat` stands in `s` from index `i` on.
pub(crate) fn occurs(s: &Vec<char>, pat: &Vec<char>, i: usize) -> (r: bool)
    ensures
        r == occurs_at(s@, pat@, i as int),
{
    if i > s.len() || pat.len() > s.len() - i {
        return false;
    }
    let mut k: usize = 0;
    while k < pat.len()
        invariant
            k <= pat.len(),
            i + pat.len() <= s.len(),
            forall|j: int| 0 <= j < k ==> s@[i + j] == pat@[j],
        decreases pat.len() - k,
    {
        if s[i + k] != pat[k] {
            assert(s@.subrange(i as int, i + pat.len())[k as int] != pat@[k as int]);
            return false;
        }
        k = k + 1;
    }
    assert(s@.subrange(i as int, i + pat.len()) =~= pat@);
    true
}

/// The first index at or after `from` where `pat` stands in `s`.
pub(crate) fn find(s: &Vec<char>, pat: &Vec<char>, from: usize) -> (r: Option<usize>)
    requires
        pat.len() > 0,
    ensures
        r matches Some(k) ==> find_from(s@, pat@, from as int) == Some(k as int),
        r is None ==> find_from(s@, pat@, from as int) is None,
{
    if pat.len() > s.len() {
        return None;
    }
    let mut i: usize = from;
    while i <= s.len() - pat.len()
        invariant
            0 < pat.len() <= s.len(),
            from <= i,
            find_from(s@, pat@, from as int) == find_from(s@, pat@, i as int),
        decreases s.len() - i,
    {
        if occurs(s, pat, i) {
            return Some(i);
        }
        i = i + 1;
    }
    None
}

/// Where the content starts when an opening tag of `name` stands at `i`.
pub(crate) fn opening_end(s: &Vec<char>, i: usize, name: &Vec<char>) -> (r: Option<usize>)
    ensures
        r matches Some(k) ==> open_end(s@, i as int, name@) == Some(k as int),
        r is None ==> open_end(s@, i as int, name@) is None,
{
    let n = s.len();
    let mut lt = vec!['<'];
    append_chars(&mut lt, name);
    assert(lt@ =~= seq!['<'] + name@);
    if !occurs(s, &lt, i) {
        return None;
    }
    assert(i + 1 + name@.len() <= s@.len());
    let j = i + 1 + name.len();
    if j >= s.len() {
        return None;
    }
    if s[j] == '>' {
        Some(j + 1)
    } else if is_space_char(s[j]) {
        let gt = vec!['>'];
        assert(gt@ =~= seq!['>']);
        match find(s, &gt, j + 1) {
            Some(k) => {
                proof {
                    lemma_find_bound(s@, gt@, j + 1);
                }
                Some(k + 1)
            },
            None => None,
        }
    } else {
        None
    }
}

proof fn lemma_find_bound(s: Seq<char>, pat: Seq<char>, from: int)
    ensures
        find_from(s, pat, from) matches Some(k) ==> from <= k && k + pat.len() <= s.len(),
    decreases s.len() + 1 - from,
{
    if !(from < 0 || from + pat.len() > s.len()) && !occurs_at(s, pat, from) {
        lemma_find_bound(s, pat, from + 1);
    }
}

/// A span of tag `name` at `i`.
pub(crate) fn span_of(s: &Vec<char>, i: usize, name: &Vec<char>) -> (r: Option<(usize, usize, usize)>)
    ensures
        r matches Some(sp) ==> span_with(s@, i as int, name@) == Some(
            (sp.0 as int, sp.1 as int, sp.2 as int),
        ),
        r is None ==> span_with(s@, i as int, name@) is None,
{
    let n = s.len();
    match opening_end(s, i, name) {
        Some(cs) => {
            let mut close = vec!['<', '/'];
            append_chars(&mut close, name);
            close.push('>');
            assert(close@ =~= closing(name@));
            match find(s, &close, cs) {
                Some(ce) => {
                    proof {
                        lemma_find_bound(s@, close@, cs as int);
                        assert(ce + close@.len() <= s@.len());
                    }
                    Some((cs, ce, ce + close.len()))
                },
                None => None,
            }
        },
        None => None,
    }
}

/// The first recognised tag whose span stands at `i`.
pub(crate) fn span_at(s: &Vec<char>, i: usize, tags: &Vec<Vec<char>>) -> (r: Option<(usize, usize, usize, usize)>)
    requires
        views(tags@) == tag_names(),
    ensures
        r matches Some(sp) ==> span_from_tag(s@, i as int, 0) == Some(
            (sp.0 as int, sp.1 as int, sp.2 as int, sp.3 as int),
        ),
        r is None ==> span_from_tag(s@, i as int, 0) is None,
{
    let mut t: usize = 0;
    while t < tags.len()
        invariant
            t <= tags.len(),
            views(tags@) == tag_names(),
            span_from_tag(s@, i as int, 0) == span_from_tag(s@, i as int, t as int),
        decreases tags.len() - t,
    {
        assert(tags@[t as int]@ == tag_names()[t as int]);
        match span_of(s, i, &tags[t]) {
            Some(sp) => {
                return Some((t, sp.0, sp.1, sp.2));
            },
            None => {},
        }
        t = t + 1;
    }
    None
}

/// The left-most span of a recognised tag in `s`.
pub(crate) fn find_span(s: &Vec<char>, tags: &Vec<Vec<char>>) -> (r: Option<(usize, usize, usize, usize, usize)>)
    requires
        views(tags@) == tag_names(),
    ensures
        r matches Some(sp) ==> first_span(s@, 0) == Some(
            (sp.0 as int, sp.1 as int, sp.2 as int, sp.3 as int, sp.4 as int),
        ),
        r is None ==> first_span(s@, 0) is None,
{
    let mut i: usize = 0;
    while i < s.len()
        invariant
            i <= s.len(),
            views(tags@) == tag_names(),
            first_span(s@, 0) == first_span(s@, i as int),
        decreases s.len() - i,
    {
        if s[i] == '<' {
            match span_at(s, i, tags) {
                Some(sp) => {
                    return Some((i, sp.0, sp.1, sp.2, sp.3));
                },
                None => {},
            }
        } else {
            proof {
                lemma_no_span_without_lt(s@, i as int, 0);
            }
        }
        i = i + 1;
    }
    None
}

proof fn lemma_no_span_without_lt(s: Seq<char>, i: int, t: int)
    requires
        0 <= i < s.len(),
        s[i] != '<',
    ensures
        span_from_tag(s, i, t) is None,
    decreases tag_names().len() - t,
{
    if !(t < 0 || t >= tag_names().len()) {
        let name = tag_names()[t];
        assert((seq!['<'] + name)[0] == '<');
        if occurs_at(s, seq!['<'] + name, i) {
            assert(s.subrange(i, i + (seq!['<'] + name).len())[0] == s[i]);
        }
        lemma_no_span_without_lt(s, i, t + 1);
    }
}

/// `s` with its recognised tag spans replaced by the styler's decorations.
pub(crate) fn resolve_tags<S: Styler>(s: &Vec<char>, styler: &S, tags: &Vec<Vec<char>>) -> (r: Vec<char>)
    requires
        views(tags@) == tag_names(),
    ensures
        r@ == resolve(s@, styler),
    decreases s.len(),
{
    match find_span(s, tags) {
        Some(sp) => {
            let (p, t, cs, ce, e) = sp;
            if p < cs && cs <= ce && ce <= e && e <= s.len() && t < tags.len() {
                let mut head = sub_chars(s, 0, p);
                let inner = sub_chars(s, cs, ce);
                let rest = sub_chars(s, e, s.len());
                assert(head@ =~= s@.take(p as int));
                assert(rest@ =~= s@.skip(e as int));
                let inner_done = resolve_tags(&inner, styler, tags);
                assert(tags@[t as int]@ == tag_names()[t as int]);
                let styled = styler.style(string_of(&inner_done).as_str(), string_of(&tags[t]).as_str());
                let rest_done = resolve_tags(&rest, styler, tags);
                append_chars(&mut head, &chars_of(styled.as_str()));
                append_chars(&mut head, &rest_done);
                head
            } else {
                let all = sub_chars(s, 0, s.len());
                assert(all@ =~= s@);
                all
            }
        },
        None => {
            let all = sub_chars(s, 0, s.len());
            assert(all@ =~= s@);
            all
        },
    }
}

/// The display lines of the raw markup `lines`, resolved with `styler` and wrapped at
/// `target_width` visible characters (a width of zero wraps as one).
pub fn render<S: Styler>(lines: &Vec<String>, styler: &S, target_width: u16) -> (r: Vec<String>)
    ensures
        string_views(r@) == render_lines(string_views(lines@), styler, wrap_width(target_width)),
{
    let w: usize = if target_width == 0 { 1 } else { target_width as usize };
    let tags = recognized_tags();
    let mut out: Vec<String> = Vec::new();
    let mut i: usize = 0;
    assert(string_views(out@) =~= Seq::<Seq<char>>::empty());
    assert(string_views(lines@).take(0) =~= Seq::<Seq<char>>::empty());
    while i < lines.len()
        invariant
            i <= lines.len(),
            w as nat == wrap_width(target_width),
            views(tags@) == tag_names(),
            string_views(out@) == render_lines(string_views(lines@).take(i as int), styler, w as nat),
        decreases lines.len() - i,
    {
        let ghost ls = string_views(lines@);
        assert(ls.take(i + 1).drop_last() =~= ls.take(i as int));
        assert(ls.take(i + 1).last() == lines@[i as int]@);
        let resolved = resolve_tags(&chars_of(lines[i].as_str()), styler, &tags);
        let wrapped = wrap_line(&resolved, w);
        let ghost before = string_views(out@);
        let mut j: usize = 0;
        while j < wrapped.len()
            invariant
                j <= wrapped.len(),
                string_views(out@) == before + views(wrapped@).take(j as int),
            decreases wrapped.len() - j,
        {
            let line = string_of(&wrapped[j]);
            proof {
                assert(views(wrapped@).take(j + 1) =~= views(wrapped@).take(j as int).push(line@));
                assert(string_views(out@.push(line)) =~= string_views(out@).push(line@));
            }
            out.push(line);
            j = j + 1;
        }
        assert(views(wrapped@).take(wrapped.len() as int) =~= views(wrapped@));
        i = i + 1;
    }
    assert(string_views(lines@).take(lines.len() as int) =~= string_views(lines@));
    out
}

proof fn lemma_all_fit_concat(a: Seq<Seq<char>>, b: Seq<Seq<char>>, w: nat)
    requires
        all_fit(a, w),
        all_fit(b, w),
    ensures
        all_fit(a + b, w),
{
    assert forall|i: int| 0 <= i < (a + b).len() implies #[trigger] crate::text::visible_len(
        (a + b)[i],
    ) <= w by {
        if i < a.len() {
            assert((a + b)[i] == a[i]);
        } else {
            assert((a + b)[i] == b[i - a.len()]);
        }
    }
}

/// Wrap invariant: at a target width of at least one, every display line of the rendering has
/// at most that many visible characters, style directives taking no width.
pub proof fn lemma_render_fits<S: Styler>(lines: Seq<Seq<char>>, styler: &S, target_width: u16)
    requires
        target_width >= 1,
    ensures
        wrap_width(target_width) == target_width as nat,
        all_fit(render_lines(lines, styler, wrap_width(target_width)), target_width as nat),
    decreases lines.len(),
{
    let w = wrap_width(target_width);
    if lines.len() > 0 {
        lemma_render_fits(lines.drop_last(), styler, target_width);
        lemma_wrap_fits(resolve(lines.last(), styler), w);
        lemma_all_fit_concat(
            render_lines(lines.drop_last(), styler, w),
            wrap_text(resolve(lines.last(), styler), w),
            w,
        );
    }
}

/// Rendering is deterministic: the same markup, rendered by the same style policy at the same
/// width, gives the same display lines, character for character.
pub proof fn lemma_render_deterministic<S: Styler>(
    a: Seq<Seq<char>>,
    b: Seq<Seq<char>>,
    styler: &S,
    target_width: u16,
)
    requires
        a == b,
    ensures
        render_lines(a, styler, wrap_width(target_width)) == render_lines(
            b,
            styler,
            wrap_width(target_width),
        ),
{
}

/// The width left for text between two horizontal margins.
pub open spec fn text_width(width: u16, margin_x: u16) -> u16 {
    if width as int >= 2 * margin_x as int {
        (width as int - 2 * margin_x as int) as u16
    } else {
        0
    }
}

pub fn width_between_margins(width: u16, margin_x: u16) -> (r: u16)
    ensures
        r == text_width(width, margin_x),
{
    if width as u32 >= 2 * margin_x as u32 {
        (width as u32 - 2 * margin_x as u32) as u16
    } else {
        0
    }
}

/// Converts chapter markup to display lines.
pub struct HtmlToLine;

impl HtmlToLine {
    /// The display lines of the markup `lines` for a viewport `width` wide with horizontal
    /// margins `margin_x`.
    pub fn as_lines<S: Styler>(lines: &Vec<String>, styler: &S, width: u16, margin_x: u16) -> (r: Vec<
        String,
    >)
        ensures
            string_views(r@) == render_lines(
                string_views(lines@),
                styler,
                wrap_width(text_width(width, margin_x)),
            ),
    {
        render(lines, styler, width_between_margins(width, margin_x))
    }
}

/// Where to start reading a chapter: a line number, or an anchor.
pub enum HtmlReadFrom {
    Line(usize),
    Marker(String),
}

} // verus!
