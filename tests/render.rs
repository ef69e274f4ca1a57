use papcio::html::{render, HtmlToLine};
use papcio::styler::{EmptyStyler, Styler, TagStyler, TocStyler};

fn strip_styles(s: &str) -> String {
    let mut out = String::new();
    let mut open = false;
    for c in s.chars() {
        if open {
            if c.is_ascii_alphabetic() {
                open = false;
            }
        } else if c == '\x1b' {
            open = true;
        } else {
            out.push(c);
        }
    }
    out
}

fn visible(s: &str) -> usize {
    strip_styles(s).chars().count()
}

fn markup(lines: &[&str]) -> Vec<String> {
    lines.iter().map(|l| l.to_string()).collect()
}

#[test]
fn heading_and_paragraph_wrap_at_ten() {
    let lines = markup(&["<h1>Title</h1><p>One two three</p>"]);
    let out = render(&lines, &TagStyler::new(), 10);
    let shown: Vec<String> = out.iter().map(|l| strip_styles(l)).collect();
    assert_eq!(shown, vec!["", "Title", "", "One two", "three"]);
}

#[test]
fn every_line_fits_the_width() {
    let lines = markup(&[
        "<p>Lorem ipsum dolor sit amet, <b>consectetur</b> adipiscing elit</p>",
        "<h2>A heading that is long</h2> tail words <span>highlighted text</span>",
        "averyveryverylongwordthatcannotfit and <i>more</i>",
        "<li>item</li><li>second item</li>",
    ]);
    for width in 1..30u16 {
        for line in render(&lines, &TagStyler::new(), width) {
            assert!(visible(&line) <= width as usize, "{:?} at {}", line, width);
        }
    }
}

#[test]
fn rendering_twice_gives_the_same_lines() {
    let lines = markup(&["<p>One two three four</p>", "<a href=\"x\">link</a> and <em>stress</em>"]);
    let a = render(&lines, &TagStyler::new(), 12);
    let b = render(&lines, &TagStyler::new(), 12);
    assert_eq!(a, b);
}

#[test]
fn empty_styler_keeps_inner_text() {
    let lines = markup(&["x <b>bold</b> and <i>it</i> y"]);
    assert_eq!(render(&lines, &EmptyStyler::new(), 80), vec!["x bold and it y"]);
}

#[test]
fn long_word_is_cut_at_the_width() {
    let lines = markup(&["abcdefghij kl"]);
    assert_eq!(render(&lines, &EmptyStyler::new(), 4), vec!["abcd", "efgh", "ij", "kl"]);
}

#[test]
fn greedy_wrap_counts_spaces() {
    let lines = markup(&["aa bb cc dd"]);
    assert_eq!(render(&lines, &EmptyStyler::new(), 5), vec!["aa bb", "cc dd"]);
    assert_eq!(render(&lines, &EmptyStyler::new(), 4), vec!["aa", "bb", "cc", "dd"]);
}

#[test]
fn unclosed_tag_stays_literal() {
    let lines = markup(&["<b>open only"]);
    assert_eq!(render(&lines, &EmptyStyler::new(), 80), vec!["<b>open only"]);
}

#[test]
fn tag_with_attributes_is_recognised() {
    let lines = markup(&["<p class=\"x\">para</p>"]);
    let out = render(&lines, &TagStyler::new(), 80);
    let shown: Vec<String> = out.iter().map(|l| strip_styles(l)).collect();
    assert_eq!(shown, vec!["", "para"]);
}

#[test]
fn similar_tag_names_are_told_apart() {
    let lines = markup(&["<blockquote>q</blockquote> <br>x</br>"]);
    let out = render(&lines, &EmptyStyler::new(), 80);
    assert_eq!(out, vec!["q <br>x</br>"]);
}

#[test]
fn nested_tags_resolve_inside_out() {
    let lines = markup(&["<p>a <b>b</b> c</p>"]);
    let out = render(&lines, &TagStyler::new(), 80);
    let shown: Vec<String> = out.iter().map(|l| strip_styles(l)).collect();
    assert_eq!(shown, vec!["", "a b c"]);
}

#[test]
fn zero_width_wraps_as_one() {
    let lines = markup(&["ab c"]);
    assert_eq!(render(&lines, &EmptyStyler::new(), 0), vec!["a", "b", "c"]);
}

#[test]
fn empty_markup_gives_no_lines() {
    let lines: Vec<String> = vec![];
    assert!(render(&lines, &TagStyler::new(), 40).is_empty());
    assert!(render(&markup(&["", "   "]), &TagStyler::new(), 40).is_empty());
}

#[test]
fn as_lines_takes_the_margins_off() {
    let lines = markup(&["aa bb cc dd"]);
    assert_eq!(HtmlToLine::as_lines(&lines, &EmptyStyler::new(), 9, 2), vec!["aa bb", "cc dd"]);
    assert_eq!(HtmlToLine::as_lines(&lines, &EmptyStyler::new(), 3, 5), vec!["a", "a", "b", "b", "c", "c", "d", "d"]);
}

#[test]
fn tag_styler_decorates_and_marks_blocks() {
    let styler = TagStyler::new();
    let p = styler.style("text", "p");
    assert!(p.starts_with(" NEW_LINE "));
    assert_ne!(p, " NEW_LINE text");
    assert_eq!(strip_styles(&p), " NEW_LINE text");
    let b = styler.style("bold", "b");
    assert_ne!(b, "bold");
    assert_eq!(strip_styles(&b), "bold");
    assert_eq!(styler.style("plain", "unknown"), "plain");
}

#[test]
fn toc_styler_marks_the_selection() {
    let styler = TocStyler::new();
    let sel = styler.style("Chapter", "selected");
    let not = styler.style("Chapter", "not_selected");
    assert_ne!(sel, not);
    assert_ne!(sel, "Chapter");
    assert_eq!(strip_styles(&sel), "Chapter");
    assert_eq!(strip_styles(&not), "Chapter");
}

#[test]
fn empty_styler_returns_text() {
    assert_eq!(EmptyStyler::new().style("abc", "p"), "abc");
}
