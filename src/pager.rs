//! Pagination: which lines of a chapter are on screen, and how a page turns.
use vstd::prelude::*;
use crate::term::TermSize;

verus! {

/// How many lines fit between the vertical margins of a viewport `height` rows high.
pub open spec fn page_size(height: u16, margin_y: u16) -> nat {
    if height as int >= 2 * margin_y as int {
        (height as int - 2 * margin_y as int) as nat
    } else {
        0
    }
}

/// The largest offset allowed in content of `len` lines.
pub open spec fn max_offset(len: nat) -> nat {
    if len == 0 { 0 } else { (len - 1) as nat }
}

/// A page forward: no move once the last line is on screen; else a page down, but never past
/// the offset that shows the last full page.
pub open spec fn page_forward(offset: nat, len: nat, count: nat) -> nat {
    if offset + count >= len {
        offset
    } else if offset + count <= len - count {
        offset + count
    } else {
        (len - count) as nat
    }
}

/// A page back: a page up, stopping at the first line.
pub open spec fn page_back(offset: nat, count: nat) -> nat {
    if offset >= count { (offset - count) as nat } else { 0 }
}

/// The offset kept when content changes to `len` lines.
pub open spec fn clamp_offset(offset: nat, len: nat) -> nat {
    if offset <= max_offset(len) { offset } else { max_offset(len) }
}

/// The lines shown from `offset` on when `count` lines fit.
pub open spec fn visible_part(content: Seq<Seq<char>>, offset: nat, count: nat) -> Seq<Seq<char>> {
    let start = if offset <= content.len() { offset as int } else { content.len() as int };
    let end = if offset + count <= content.len() { (offset + count) as int } else { content.len() as int };
    content.subrange(start, end)
}

/// Paging keeps the offset within the content: from an offset in range, a page forward and a
/// page back both land in range; a page forward once the last line is on screen, or a page
/// back at the first line, changes nothing.
pub proof fn lemma_paging_in_range(offset: nat, len: nat, count: nat)
    requires
        offset <= max_offset(len),
    ensures
        page_forward(offset, len, count) <= max_offset(len),
        page_back(offset, count) <= max_offset(len),
        offset + count >= len ==> page_forward(offset, len, count) == offset,
        offset == 0 ==> page_back(offset, count) == 0,
        page_forward(offset, len, count) >= offset,
        page_back(offset, count) <= offset,
{
}

/// Keeping an offset after content changes leaves it in range.
pub proof fn lemma_clamp_in_range(offset: nat, len: nat)
    ensures
        clamp_offset(offset, len) <= max_offset(len),
{
}

/// How many lines fit between the vertical margins.
pub fn lines_per_page(height: u16, margin_y: u16) -> (r: usize)
    ensures
        r == page_size(height, margin_y),
{
    if height as u32 >= 2 * margin_y as u32 {
        (height as u32 - 2 * margin_y as u32) as usize
    } else {
        0
    }
}

/// The offset after a page forward.
pub fn next_page(offset: usize, len: usize, count: usize) -> (r: usize)
    ensures
        r == page_forward(offset as nat, len as nat, count as nat),
{
    if offset >= len || count >= len - offset {
        offset
    } else if offset + count <= len - count {
        offset + count
    } else {
        len - count
    }
}

/// The offset after a page back.
pub fn previous_page(offset: usize, count: usize) -> (r: usize)
    ensures
        r == page_back(offset as nat, count as nat),
{
    if offset >= count {
        offset - count
    } else {
        0
    }
}

/// The offset kept when content changes to `len` lines.
pub fn clamp_to(offset: usize, len: usize) -> (r: usize)
    ensures
        r == clamp_offset(offset as nat, len as nat),
{
    let max = if len == 0 { 0 } else { len - 1 };
    if offset <= max {
        offset
    } else {
        max
    }
}

/// The lines of `content` shown from `offset` on in a viewport, and the row where drawing
/// starts (the vertical margin).
pub fn visible_slice(content: &Vec<String>, offset: usize, viewport: TermSize, margin_y: u16) -> (r: (
    Vec<String>,
    u16,
))
    ensures
        r.0@.map_values(|x: String| x@) == visible_part(
            content@.map_values(|x: String| x@),
            offset as nat,
            page_size(viewport.height, margin_y),
        ),
        r.1 == margin_y,
{
    let count = lines_per_page(viewport.height, margin_y);
    let len = content.len();
    let start = if offset <= len { offset } else { len };
    let end = if count <= len - start { start + count } else { len };
    let ghost all = content@.map_values(|x: String| x@);
    let mut out: Vec<String> = Vec::new();
    let mut i: usize = start;
    while i < end
        invariant
            start <= i <= end,
            end <= len,
            len == content.len(),
            all == content@.map_values(|x: String| x@),
            out@.map_values(|x: String| x@) == all.subrange(start as int, i as int),
        decreases end - i,
    {
        let line = content[i].clone();
        proof {
            assert(all[i as int] == line@);
            assert(out@.push(line).map_values(|x: String| x@) =~= out@.map_values(|x: String| x@).push(line@));
            assert(all.subrange(start as int, i + 1) =~= all.subrange(start as int, i as int).push(line@));
        }
        out.push(line);
        i = i + 1;
    }
    (out, margin_y)
}

} // verus!
