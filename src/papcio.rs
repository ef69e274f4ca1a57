//! The reader's state machine: the contents list, the open chapter, and the events between.
use vstd::prelude::*;
use crate::config::{InputKeys, ReaderConfig};
use crate::html::{render_lines, wrap_width, text_width, string_views, HtmlToLine};
use crate::misc::{MoveDirection, Toc};
use crate::pager::{
    page_size, max_offset, page_forward, page_back, clamp_offset, visible_part,
    lemma_paging_in_range, lemma_clamp_in_range, lines_per_page, next_page, previous_page,
    clamp_to, visible_slice,
};
use crate::styler::{Styler, TagStyler, TocStyler, selected_key};
use crate::term::TermSize;
use crate::text::chars_of;

verus! {

/// What the reader shows: the contents list or a chapter.
#[derive(PartialEq, Eq, Structural, Clone, Copy, Debug)]
pub enum ReaderState {
    TocShown,
    ContentShown,
}

/// An event from the terminal: a key press or a new terminal size.
#[derive(PartialEq, Eq, Structural, Clone, Copy, Debug)]
pub enum ReaderEvent {
    Key(char),
    Resize(TermSize),
}

/// What the caller does after an event.
#[derive(PartialEq, Eq, Structural, Clone, Copy, Debug)]
pub enum ReaderAction {
    Nothing,
    DrawToc,
    DrawContent,
    /// Read the markup of the contents entry at this index and hand it to `open_chapter`.
    OpenChapter(usize),
    Exit,
}

/// The reader's state as mathematical values.
pub struct ReaderView {
    pub keys: InputKeys,
    pub margin_x: u16,
    pub margin_y: u16,
    pub labels: Seq<Seq<char>>,
    pub selected: nat,
    pub size: TermSize,
    pub state: ReaderState,
    pub markup: Seq<Seq<char>>,
    pub lines: Seq<Seq<char>>,
    pub offset: nat,
}

/// The reader: navigation state between the contents list and a chapter.
pub struct Papcio {
    config: ReaderConfig,
    toc: Vec<Toc>,
    selected_option: usize,
    terminal_size: TermSize,
    state: ReaderState,
    markup: Vec<String>,
    loaded_lines: Vec<String>,
    first_line: usize,
}

/// The display lines of a chapter's markup in a terminal of the given size.
pub open spec fn chapter_lines(markup: Seq<Seq<char>>, size: TermSize, margin_x: u16) -> Seq<
    Seq<char>,
> {
    render_lines(markup, &TagStyler {  }, wrap_width(text_width(size.width, margin_x)))
}

/// The reader's invariant: the selection lies in the contents list, the offset in the chapter,
/// the chapter lines are the rendering of its markup at the current width, and no chapter is
/// held while the contents list is shown.
pub open spec fn well_formed(v: ReaderView) -> bool {
    &&& (v.labels.len() > 0 ==> v.selected < v.labels.len())
    &&& (v.labels.len() == 0 ==> v.selected == 0)
    &&& v.offset <= max_offset(v.lines.len())
    &&& v.lines == chapter_lines(v.markup, v.size, v.margin_x)
    &&& (v.state == ReaderState::TocShown ==> v.markup.len() == 0 && v.offset == 0)
}

/// The selection after a move: up stops at the first entry, down at the last.
pub open spec fn selection_after(selected: nat, len: nat, direction: MoveDirection) -> nat {
    match direction {
        MoveDirection::Up => if selected == 0 { 0 } else { (selected - 1) as nat },
        MoveDirection::Down => if selected + 1 < len { selected + 1 } else { selected },
    }
}

/// The reader after a move of the selection.
pub open spec fn moved(v: ReaderView, direction: MoveDirection) -> ReaderView {
    ReaderView { selected: selection_after(v.selected, v.labels.len(), direction), ..v }
}

/// The reader after the terminal took a new size: an open chapter is wrapped anew for the new
/// width, keeping its offset where it still lies in the chapter.
pub open spec fn resized(v: ReaderView, size: TermSize) -> (ReaderView, ReaderAction) {
    if v.state == ReaderState::ContentShown {
        let lines = chapter_lines(v.markup, size, v.margin_x);
        (
            ReaderView { size, lines, offset: clamp_offset(v.offset, lines.len()), ..v },
            ReaderAction::DrawContent,
        )
    } else {
        (ReaderView { size, lines: chapter_lines(v.markup, size, v.margin_x), ..v }, ReaderAction::DrawToc)
    }
}

/// The reader with a chapter opened from its markup, at its first line.
pub open spec fn opened(v: ReaderView, markup: Seq<Seq<char>>) -> ReaderView {
    ReaderView {
        state: ReaderState::ContentShown,
        lines: chapter_lines(markup, v.size, v.margin_x),
        markup,
        offset: 0,
        ..v
    }
}

/// The reader after a page move to `offset`, with the redraw it calls for.
pub open spec fn paged(v: ReaderView, offset: nat) -> (ReaderView, ReaderAction) {
    (
        ReaderView { offset, ..v },
        if offset != v.offset { ReaderAction::DrawContent } else { ReaderAction::Nothing },
    )
}

/// One transition of the reader. Keys are matched in the order up, down, left, right, select,
/// back; keys that mean nothing in the current view change nothing.
pub open spec fn step(v: ReaderView, event: ReaderEvent) -> (ReaderView, ReaderAction) {
    let toc = v.state == ReaderState::TocShown;
    let count = page_size(v.size.height, v.margin_y);
    match event {
        ReaderEvent::Resize(size) => resized(v, size),
        ReaderEvent::Key(k) => if k == v.keys.up {
            if toc { (moved(v, MoveDirection::Up), ReaderAction::DrawToc) } else { (v, ReaderAction::Nothing) }
        } else if k == v.keys.down {
            if toc { (moved(v, MoveDirection::Down), ReaderAction::DrawToc) } else { (v, ReaderAction::Nothing) }
        } else if k == v.keys.left {
            if toc { (v, ReaderAction::Nothing) } else { paged(v, page_back(v.offset, count)) }
        } else if k == v.keys.right {
            if toc {
                (v, ReaderAction::Nothing)
            } else {
                paged(v, page_forward(v.offset, v.lines.len(), count))
            }
        } else if k == v.keys.select {
            if toc && v.labels.len() > 0 {
                (v, ReaderAction::OpenChapter(v.selected as usize))
            } else {
                (v, ReaderAction::Nothing)
            }
        } else if k == v.keys.back {
            if toc {
                (v, ReaderAction::Exit)
            } else {
                (
                    ReaderView {
                        state: ReaderState::TocShown,
                        markup: Seq::empty(),
                        lines: Seq::empty(),
                        offset: 0,
                        ..v
                    },
                    ReaderAction::DrawToc,
                )
            }
        } else {
            (v, ReaderAction::Nothing)
        },
    }
}

impl View for Papcio {
    type V = ReaderView;

    closed spec fn view(&self) -> ReaderView {
        ReaderView {
            keys: self.config.keys,
            margin_x: self.config.margin_x,
            margin_y: self.config.margin_y,
            labels: self.toc@.map_values(|t: Toc| t.text@),
            selected: self.selected_option as nat,
            size: self.terminal_size,
            state: self.state,
            markup: string_views(self.markup@),
            lines: string_views(self.loaded_lines@),
            offset: self.first_line as nat,
        }
    }
}

proof fn lemma_no_chapter(size: TermSize, margin_x: u16)
    ensures
        chapter_lines(Seq::empty(), size, margin_x) == Seq::<Seq<char>>::empty(),
{
}

proof fn lemma_empty_views(v: Seq<String>)
    requires
        v.len() == 0,
    ensures
        string_views(v) == Seq::<Seq<char>>::empty(),
{
    assert(string_views(v) =~= Seq::<Seq<char>>::empty());
}

/// One entry of the contents list as drawn: its row, its column, and its styled label.
pub struct TocRow {
    pub row: u16,
    pub column: u16,
    pub text: String,
}

/// The column at which a label of `len` characters starts when centred in `width` columns.
pub open spec fn centre_column(width: u16, len: nat) -> nat {
    if (width / 2) as nat >= len / 2 { ((width / 2) as nat - len / 2) as nat } else { 0 }
}

/// The key under which an entry is styled in the contents list.
pub open spec fn entry_key(i: int, selected: nat) -> Seq<char> {
    if i == selected { selected_key() } else { seq!['n', 'o', 't', '_', 's', 'e', 'l', 'e', 'c', 't', 'e', 'd'] }
}

/// How many entries of the contents list get a row: rows start at 2 and must fit a `u16`.
pub open spec fn rows_drawn(len: nat) -> nat {
    if len <= 65534 { len } else { 65534 }
}

/// The selection stays in the contents list: from an index in range, a move up or down lands
/// in range, and up at the first entry or down at the last changes nothing.
pub proof fn lemma_selection_in_range(selected: nat, len: nat, direction: MoveDirection)
    requires
        selected < len,
    ensures
        selection_after(selected, len, direction) < len,
        direction == MoveDirection::Up && selected == 0 ==> selection_after(selected, len, direction) == 0,
        direction == MoveDirection::Down && selected == len - 1 ==> selection_after(selected, len, direction)
            == selected,
{
}

/// Every transition keeps the reader's invariant: the selection stays in the contents list and
/// the offset in the chapter, whatever keys and sizes come, at either end too.
pub proof fn lemma_step_keeps_invariant(v: ReaderView, event: ReaderEvent)
    requires
        well_formed(v),
    ensures
        well_formed(step(v, event).0),
{
    let count = page_size(v.size.height, v.margin_y);
    lemma_paging_in_range(v.offset, v.lines.len(), count);
    match event {
        ReaderEvent::Resize(size) => {
            let lines = chapter_lines(v.markup, size, v.margin_x);
            lemma_clamp_in_range(v.offset, lines.len());
            if v.state == ReaderState::TocShown {
                lemma_no_chapter(size, v.margin_x);
                lemma_no_chapter(v.size, v.margin_x);
                assert(v.markup =~= Seq::<Seq<char>>::empty());
            }
        },
        ReaderEvent::Key(k) => {
            lemma_no_chapter(v.size, v.margin_x);
        },
    }
}

/// Re-rendering is idempotent: when the terminal takes a size of the same width, the chapter
/// is rendered anew into exactly the lines it had.
pub proof fn lemma_rerender_same_width(v: ReaderView, size: TermSize)
    requires
        well_formed(v),
        size.width == v.size.width,
    ensures
        step(v, ReaderEvent::Resize(size)).0.lines == v.lines,
{
    if v.state == ReaderState::TocShown {
        lemma_no_chapter(size, v.margin_x);
        lemma_no_chapter(v.size, v.margin_x);
        assert(v.markup =~= Seq::<Seq<char>>::empty());
    }
}

impl Papcio {
    /// A reader over the contents list `toc`, showing the list with its first entry selected.
    pub fn new(toc: Vec<Toc>, terminal_size: TermSize, config: ReaderConfig) -> (r: Self)
        ensures
            well_formed(r@),
            r@.state == ReaderState::TocShown,
            r@.selected == 0,
            r@.labels == toc@.map_values(|t: Toc| t.text@),
            r@.size == terminal_size,
            r@.keys == config.keys,
            r@.margin_x == config.margin_x,
            r@.margin_y == config.margin_y,
            r@.markup.len() == 0,
            r@.lines.len() == 0,
            r@.offset == 0,
    {
        let r = Papcio {
            config,
            toc,
            selected_option: 0,
            terminal_size,
            state: ReaderState::TocShown,
            markup: Vec::new(),
            loaded_lines: Vec::new(),
            first_line: 0,
        };
        proof {
            assert(string_views(r.markup@) =~= Seq::<Seq<char>>::empty());
            assert(string_views(r.loaded_lines@) =~= Seq::<Seq<char>>::empty());
            lemma_no_chapter(terminal_size, r.config.margin_x);
        }
        r
    }

    /// Moves the selection of the contents list one entry up or down; up at the first entry
    /// and down at the last change nothing.
    pub fn move_selection(&mut self, direction: MoveDirection)
        requires
            well_formed(old(self)@),
        ensures
            final(self)@ == moved(old(self)@, direction),
            well_formed(final(self)@),
    {
        match direction {
            MoveDirection::Up => {
                if self.selected_option != 0 {
                    self.selected_option = self.selected_option - 1;
                }
            },
            MoveDirection::Down => {
                if self.selected_option < self.toc.len() && self.toc.len() - self.selected_option > 1 {
                    self.selected_option = self.selected_option + 1;
                }
            },
        }
        proof {
            assert(final(self)@.labels =~= old(self)@.labels);
        }
    }

    /// Takes a new terminal size; an open chapter is wrapped anew for the new width.
    pub fn update_dimentions(&mut self, size: TermSize) -> (a: ReaderAction)
        requires
            well_formed(old(self)@),
        ensures
            (final(self)@, a) == resized(old(self)@, size),
            well_formed(final(self)@),
    {
        self.terminal_size = size;
        match self.state {
            ReaderState::ContentShown => {
                let styler = TagStyler::new();
                self.loaded_lines = HtmlToLine::as_lines(&self.markup, &styler, size.width, self.config.margin_x);
                self.first_line = clamp_to(self.first_line, self.loaded_lines.len());
                proof {
                    lemma_clamp_in_range(old(self).first_line as nat, self.loaded_lines@.len());
                }
                ReaderAction::DrawContent
            },
            ReaderState::TocShown => {
                proof {
                    lemma_no_chapter(size, self.config.margin_x);
                    lemma_no_chapter(old(self).terminal_size, self.config.margin_x);
                    assert(string_views(self.markup@) =~= Seq::<Seq<char>>::empty());
                }
                ReaderAction::DrawToc
            },
        }
    }

    /// Opens a chapter from its markup: it is rendered for the current width and shown from
    /// its first line.
    pub fn open_chapter(&mut self, markup: Vec<String>) -> (a: ReaderAction)
        requires
            well_formed(old(self)@),
        ensures
            final(self)@ == opened(old(self)@, string_views(markup@)),
            a == ReaderAction::DrawContent,
            well_formed(final(self)@),
    {
        let styler = TagStyler::new();
        self.loaded_lines = HtmlToLine::as_lines(&markup, &styler, self.terminal_size.width, self.config.margin_x);
        self.markup = markup;
        self.first_line = 0;
        self.state = ReaderState::ContentShown;
        ReaderAction::DrawContent
    }

    /// Applies one event and says what to do next.
    pub fn handle(&mut self, event: ReaderEvent) -> (a: ReaderAction)
        requires
            well_formed(old(self)@),
        ensures
            (final(self)@, a) == step(old(self)@, event),
            well_formed(final(self)@),
    {
        let keys = self.config.keys;
        let toc = self.state == ReaderState::TocShown;
        let count = lines_per_page(self.terminal_size.height, self.config.margin_y);
        match event {
            ReaderEvent::Resize(size) => self.update_dimentions(size),
            ReaderEvent::Key(k) => {
                if k == keys.up {
                    if toc {
                        self.move_selection(MoveDirection::Up);
                        ReaderAction::DrawToc
                    } else {
                        ReaderAction::Nothing
                    }
                } else if k == keys.down {
                    if toc {
                        self.move_selection(MoveDirection::Down);
                        ReaderAction::DrawToc
                    } else {
                        ReaderAction::Nothing
                    }
                } else if k == keys.left {
                    if toc {
                        ReaderAction::Nothing
                    } else {
                        let offset = previous_page(self.first_line, count);
                        proof {
                            lemma_paging_in_range(self.first_line as nat, self@.lines.len(), count as nat);
                        }
                        self.turn_to(offset)
                    }
                } else if k == keys.right {
                    if toc {
                        ReaderAction::Nothing
                    } else {
                        let offset = next_page(self.first_line, self.loaded_lines.len(), count);
                        proof {
                            lemma_paging_in_range(self.first_line as nat, self@.lines.len(), count as nat);
                        }
                        self.turn_to(offset)
                    }
                } else if k == keys.select {
                    if toc && self.toc.len() > 0 {
                        ReaderAction::OpenChapter(self.selected_option)
                    } else {
                        ReaderAction::Nothing
                    }
                } else if k == keys.back {
                    if toc {
                        ReaderAction::Exit
                    } else {
                        self.state = ReaderState::TocShown;
                        self.markup = Vec::new();
                        self.loaded_lines = Vec::new();
                        self.first_line = 0;
                        proof {
                            lemma_empty_views(self.markup@);
                            lemma_empty_views(self.loaded_lines@);
                            lemma_no_chapter(self.terminal_size, self.config.margin_x);
                        }
                        ReaderAction::DrawToc
                    }
                } else {
                    ReaderAction::Nothing
                }
            },
        }
    }

    /// The chapter lines on screen, and the row where drawing starts.
    pub fn page(&self) -> (r: (Vec<String>, u16))
        ensures
            string_views(r.0@) == visible_part(
                self@.lines,
                self@.offset,
                page_size(self@.size.height, self@.margin_y),
            ),
            r.1 == self@.margin_y,
    {
        visible_slice(&self.loaded_lines, self.first_line, self.terminal_size, self.config.margin_y)
    }

    /// The contents list as drawn: entry `i` on row `i + 2`, centred, styled as selected or not.
    pub fn toc_rows(&self) -> (r: Vec<TocRow>)
        ensures
            r@.len() == rows_drawn(self@.labels.len()),
            forall|i: int|
                #![trigger r@[i]]
                0 <= i < r@.len() ==> {
                    &&& r@[i].row == i + 2
                    &&& r@[i].column == centre_column(self@.size.width, self@.labels[i].len())
                    &&& r@[i].text@ == (TocStyler {  }).styled(
                        self@.labels[i],
                        entry_key(i, self@.selected),
                    )
                },
    {
        let styler = TocStyler::new();
        let n: usize = if self.toc.len() <= 65534 { self.toc.len() } else { 65534 };
        let mut rows: Vec<TocRow> = Vec::new();
        let mut i: usize = 0;
        while i < n
            invariant
                i <= n,
                n == rows_drawn(self@.labels.len()),
                n <= self.toc.len(),
                styler == (TocStyler {  }),
                rows@.len() == i,
                forall|j: int|
                    #![trigger rows@[j]]
                    0 <= j < i ==> {
                        &&& rows@[j].row == j + 2
                        &&& rows@[j].column == centre_column(self@.size.width, self@.labels[j].len())
                        &&& rows@[j].text@ == (TocStyler {  }).styled(
                            self@.labels[j],
                            entry_key(j, self@.selected),
                        )
                    },
            decreases n - i,
        {
            let label = &self.toc[i].text;
            let len = chars_of(label.as_str()).len();
            let half = self.terminal_size.width / 2;
            let column: u16 = if half as usize >= len / 2 { (half as usize - len / 2) as u16 } else { 0 };
            let text = if i == self.selected_option {
                proof {
                    reveal_strlit("selected");
                }
                styler.style(label.as_str(), "selected")
            } else {
                proof {
                    reveal_strlit("not_selected");
                }
                styler.style(label.as_str(), "not_selected")
            };
            proof {
                assert(self@.labels[i as int] == label@);
                assert(entry_key(i as int, self@.selected) == if i == self.selected_option { "selected"@ } else { "not_selected"@ });
            }
            rows.push(TocRow { row: (i + 2) as u16, column, text });
            i = i + 1;
        }
        rows
    }

    pub fn state(&self) -> (r: ReaderState)
        ensures
            r == self@.state,
    {
        self.state
    }

    pub fn selected_option(&self) -> (r: usize)
        ensures
            r == self@.selected,
    {
        self.selected_option
    }

    pub fn first_line(&self) -> (r: usize)
        ensures
            r == self@.offset,
    {
        self.first_line
    }

    pub fn loaded_lines(&self) -> (r: &Vec<String>)
        ensures
            string_views(r@) == self@.lines,
    {
        &self.loaded_lines
    }

    pub fn terminal_size(&self) -> (r: TermSize)
        ensures
            r == self@.size,
    {
        self.terminal_size
    }

    pub fn toc(&self) -> (r: &Vec<Toc>)
        ensures
            r@.map_values(|t: Toc| t.text@) == self@.labels,
    {
        &self.toc
    }

    pub fn config(&self) -> (r: &ReaderConfig)
        ensures
            r.keys == self@.keys,
            r.margin_x == self@.margin_x,
            r.margin_y == self@.margin_y,
    {
        &self.config
    }

    fn turn_to(&mut self, offset: usize) -> (a: ReaderAction)
        requires
            well_formed(old(self)@),
            offset <= max_offset(old(self)@.lines.len()),
        ensures
            (final(self)@, a) == paged(old(self)@, offset as nat),
            well_formed(final(self)@),
    {
        let changed = offset != self.first_line;
        self.first_line = offset;
        if changed {
            ReaderAction::DrawContent
        } else {
            ReaderAction::Nothing
        }
    }
}

} // verus!
