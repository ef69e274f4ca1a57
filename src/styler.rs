//! Style policies: how a text is decorated for a markup tag or a selection state.
use vstd::prelude::*;
use vstd::string::StringExecFns;
use crossterm::style::{Attribute, Attributes, Color, ContentStyle};
use crate::text::chars_of;
use crate::wrap::break_marker;

verus! {

#[verifier::external_type_specification]
pub struct ExColor(Color);

#[verifier::external_type_specification]
pub struct ExAttribute(Attribute);

/// A style policy: decorates a text for a key (a markup tag name, or a selection state).
pub trait Styler {
    /// What `style` returns.
    spec fn styled(&self, text: Seq<char>, key: Seq<char>) -> Seq<char>;

    fn style(&self, text: &str, key: &str) -> (r: String)
        ensures
            r@ == self.styled(text@, key@),
    ;
}

/// The terminal rendering of `text` with the given colours and attributes.
pub uninterp spec fn painted(
    text: Seq<char>,
    fg: Option<Color>,
    bg: Option<Color>,
    underline: Option<Color>,
    attributes: Seq<Attribute>,
) -> Seq<char>;

/// Relies on crossterm's `ContentStyle::apply` and the `Display` impl of `StyledContent`: the
/// text framed by the escape sequences that set, then reset, the given colours and attributes.
#[verifier::external_body]
fn paint(
    text: &str,
    fg: Option<Color>,
    bg: Option<Color>,
    underline: Option<Color>,
    attributes: &Vec<Attribute>,
) -> (r: String)
    ensures
        r@ == painted(text@, fg, bg, underline, attributes@),
{
    let style = ContentStyle {
        foreground_color: fg,
        background_color: bg,
        underline_color: underline,
        attributes: Attributes::from(attributes.as_slice()),
    };
    style.apply(text).to_string()
}

/// Leaves every text as it is.
pub struct EmptyStyler;

impl EmptyStyler {
    pub fn new() -> (r: Self)
        ensures
            r == EmptyStyler,
    {
        EmptyStyler
    }
}

impl Styler for EmptyStyler {
    open spec fn styled(&self, text: Seq<char>, key: Seq<char>) -> Seq<char> {
        text
    }

    fn style(&self, text: &str, key: &str) -> (r: String) {
        text.to_owned()
    }
}

/// How the chapter styling treats a markup tag.
#[derive(PartialEq, Eq, Structural, Clone, Copy, Debug)]
pub enum TagClass {
    Link,
    Block,
    Heading,
    Strong,
    Emphasis,
    Item,
    Quote,
    Highlight,
    Italic,
    Other,
}

pub open spec fn heading_level(key: Seq<char>) -> bool {
    key.len() == 2 && key[0] == 'h' && '1' <= key[1] && key[1] <= '6'
}

/// The class of a markup tag name.
pub open spec fn class_of(key: Seq<char>) -> TagClass {
    if key == seq!['a'] {
        TagClass::Link
    } else if key == seq!['p'] || key == seq!['d', 'i', 'v'] {
        TagClass::Block
    } else if heading_level(key) {
        TagClass::Heading
    } else if key == seq!['b'] {
        TagClass::Strong
    } else if key == seq!['e', 'm'] {
        TagClass::Emphasis
    } else if key == seq!['l', 'i'] {
        TagClass::Item
    } else if key == seq!['d', 't'] || key == seq!['d', 'd'] || key == seq!['q'] || key == seq![
        'b',
        'l',
        'o',
        'c',
        'k',
        'q',
        'u',
        'o',
        't',
        'e',
    ] {
        TagClass::Quote
    } else if key == seq!['s', 'p', 'a', 'n'] {
        TagClass::Highlight
    } else if key == seq!['i'] {
        TagClass::Italic
    } else {
        TagClass::Other
    }
}

/// Block-level tags start on a line of their own.
pub open spec fn breaks_before(class: TagClass) -> bool {
    class == TagClass::Block || class == TagClass::Heading || class == TagClass::Item
}

/// The break marker with the spaces that keep it a word of its own.
pub open spec fn marker_gap() -> Seq<char> {
    seq![' '] + break_marker() + seq![' ']
}

/// The decoration of `text` for a tag class.
pub open spec fn decorated(text: Seq<char>, class: TagClass) -> Seq<char> {
    match class {
        TagClass::Link => painted(text, Some(Color::Blue), None, Some(Color::Blue), seq![]),
        TagClass::Block => painted(text, Some(Color::Red), None, None, seq![]),
        TagClass::Heading => painted(text, Some(Color::Green), None, None, seq![Attribute::Bold]),
        TagClass::Strong => painted(text, Some(Color::White), None, None, seq![Attribute::Bold]),
        TagClass::Emphasis => painted(text, Some(Color::White), None, None, seq![Attribute::Italic]),
        TagClass::Item => painted(text, Some(Color::Yellow), None, None, seq![]),
        TagClass::Quote => painted(text, Some(Color::Green), None, None, seq![Attribute::Italic]),
        TagClass::Highlight => painted(
            text,
            Some(Color::White),
            Some(Color::Blue),
            None,
            seq![Attribute::Bold],
        ),
        TagClass::Italic => painted(text, Some(Color::White), None, None, seq![Attribute::Italic]),
        TagClass::Other => text,
    }
}

/// Whether two character vectors hold the same characters.
pub fn same_chars(a: &Vec<char>, b: &Vec<char>) -> (r: bool)
    ensures
        r == (a@ == b@),
{
    if a.len() != b.len() {
        return false;
    }
    let mut i: usize = 0;
    while i < a.len()
        invariant
            i <= a.len(),
            a.len() == b.len(),
            forall|j: int| 0 <= j < i ==> a@[j] == b@[j],
        decreases a.len() - i,
    {
        if a[i] != b[i] {
            return false;
        }
        i = i + 1;
    }
    assert(a@ =~= b@);
    true
}

/// The class of the markup tag name `key`.
pub fn classify(key: &Vec<char>) -> (r: TagClass)
    ensures
        r == class_of(key@),
{
    let a = vec!['a'];
    let p = vec!['p'];
    let div = vec!['d', 'i', 'v'];
    let b = vec!['b'];
    let em = vec!['e', 'm'];
    let li = vec!['l', 'i'];
    let dt = vec!['d', 't'];
    let dd = vec!['d', 'd'];
    let q = vec!['q'];
    let quote = vec!['b', 'l', 'o', 'c', 'k', 'q', 'u', 'o', 't', 'e'];
    let span = vec!['s', 'p', 'a', 'n'];
    let i = vec!['i'];
    proof {
        assert(a@ =~= seq!['a']);
        assert(p@ =~= seq!['p']);
        assert(div@ =~= seq!['d', 'i', 'v']);
        assert(b@ =~= seq!['b']);
        assert(em@ =~= seq!['e', 'm']);
        assert(li@ =~= seq!['l', 'i']);
        assert(dt@ =~= seq!['d', 't']);
        assert(dd@ =~= seq!['d', 'd']);
        assert(q@ =~= seq!['q']);
        assert(quote@ =~= seq!['b', 'l', 'o', 'c', 'k', 'q', 'u', 'o', 't', 'e']);
        assert(span@ =~= seq!['s', 'p', 'a', 'n']);
        assert(i@ =~= seq!['i']);
    }
    if same_chars(key, &a) {
        TagClass::Link
    } else if same_chars(key, &p) || same_chars(key, &div) {
        TagClass::Block
    } else if key.len() == 2 && key[0] == 'h' && '1' <= key[1] && key[1] <= '6' {
        TagClass::Heading
    } else if same_chars(key, &b) {
        TagClass::Strong
    } else if same_chars(key, &em) {
        TagClass::Emphasis
    } else if same_chars(key, &li) {
        TagClass::Item
    } else if same_chars(key, &dt) || same_chars(key, &dd) || same_chars(key, &q) || same_chars(
        key,
        &quote,
    ) {
        TagClass::Quote
    } else if same_chars(key, &span) {
        TagClass::Highlight
    } else if same_chars(key, &i) {
        TagClass::Italic
    } else {
        TagClass::Other
    }
}

/// Chapter styling: colours and attributes per markup tag, and a break marker before
/// block-level tags.
pub struct TagStyler {}

impl TagStyler {
    pub fn new() -> (r: Self)
        ensures
            r == (TagStyler {  }),
    {
        TagStyler {  }
    }
}

impl Styler for TagStyler {
    open spec fn styled(&self, text: Seq<char>, key: Seq<char>) -> Seq<char> {
        let class = class_of(key);
        if breaks_before(class) {
            marker_gap() + decorated(text, class)
        } else {
            decorated(text, class)
        }
    }

    fn style(&self, text: &str, key: &str) -> (r: String) {
        let class = classify(&chars_of(key));
        let none: Vec<Attribute> = Vec::new();
        let bold = vec![Attribute::Bold];
        let italic = vec![Attribute::Italic];
        proof {
            assert(none@ =~= Seq::<Attribute>::empty());
            assert(bold@ =~= seq![Attribute::Bold]);
            assert(italic@ =~= seq![Attribute::Italic]);
        }
        let body = match class {
            TagClass::Link => paint(text, Some(Color::Blue), None, Some(Color::Blue), &none),
            TagClass::Block => paint(text, Some(Color::Red), None, None, &none),
            TagClass::Heading => paint(text, Some(Color::Green), None, None, &bold),
            TagClass::Strong => paint(text, Some(Color::White), None, None, &bold),
            TagClass::Emphasis => paint(
                text,
                Some(Color::White),
                None,
                None,
                &italic,
            ),
            TagClass::Item => paint(text, Some(Color::Yellow), None, None, &none),
            TagClass::Quote => paint(text, Some(Color::Green), None, None, &italic),
            TagClass::Highlight => paint(
                text,
                Some(Color::White),
                Some(Color::Blue),
                None,
                &bold,
            ),
            TagClass::Italic => paint(text, Some(Color::White), None, None, &italic),
            TagClass::Other => text.to_owned(),
        };
        if class == TagClass::Block || class == TagClass::Heading || class == TagClass::Item {
            let mut r = String::from_str(" NEW_LINE ");
            proof {
                reveal_strlit(" NEW_LINE ");
                assert(r@ =~= marker_gap());
            }
            r.append(body.as_str());
            r
        } else {
            body
        }
    }
}

/// Contents-list styling: the selected entry on blue, the others in white, all bold.
pub struct TocStyler {}

impl TocStyler {
    pub fn new() -> (r: Self)
        ensures
            r == (TocStyler {  }),
    {
        Self {  }
    }
}

pub open spec fn selected_key() -> Seq<char> {
    seq!['s', 'e', 'l', 'e', 'c', 't', 'e', 'd']
}

impl Styler for TocStyler {
    open spec fn styled(&self, text: Seq<char>, key: Seq<char>) -> Seq<char> {
        if key == selected_key() {
            painted(text, Some(Color::Black), Some(Color::Blue), None, seq![Attribute::Bold])
        } else {
            painted(text, Some(Color::White), None, None, seq![Attribute::Bold])
        }
    }

    fn style(&self, text: &str, key: &str) -> (r: String) {
        let sel = vec!['s', 'e', 'l', 'e', 'c', 't', 'e', 'd'];
        let bold = vec![Attribute::Bold];
        proof {
            assert(sel@ =~= selected_key());
            assert(bold@ =~= seq![Attribute::Bold]);
        }
        if same_chars(&chars_of(key), &sel) {
            paint(text, Some(Color::Black), Some(Color::Blue), None, &bold)
        } else {
            paint(text, Some(Color::White), None, None, &bold)
        }
    }
}

} // verus!
