use papcio::config::{InputKeys, ReaderConfig};
use papcio::misc::{MoveDirection, Toc};
use papcio::pager::{next_page, previous_page, visible_slice, lines_per_page};
use papcio::papcio::{Papcio, ReaderAction, ReaderEvent, ReaderState};
use papcio::term::TermSize;

fn entries(n: usize) -> Vec<Toc> {
    (0..n)
        .map(|i| Toc::new(format!("ch{}.html", i), String::new(), format!("Chapter {}", i)))
        .collect()
}

fn reader(n: usize, width: u16, height: u16) -> Papcio {
    Papcio::new(entries(n), TermSize { width, height }, ReaderConfig::new(0, 2, "./tmp"))
}

fn key(c: char) -> ReaderEvent {
    ReaderEvent::Key(c)
}

fn hundred_lines() -> Vec<String> {
    (0..100).map(|i| format!("line{}", i)).collect()
}

#[test]
fn config_has_default_keys() {
    let c = ReaderConfig::new(3, 4, "./tmp");
    assert_eq!(c.margin_x, 3);
    assert_eq!(c.margin_y, 4);
    assert_eq!(c.tmp_path, "./tmp");
    assert_eq!(
        c.keys,
        InputKeys { select: 'e', up: 'w', down: 's', back: 'q', left: 'a', right: 'd' }
    );
}

#[test]
fn down_twice_then_stops_at_last() {
    let mut r = reader(3, 80, 24);
    assert_eq!(r.selected_option(), 0);
    assert_eq!(r.handle(key('s')), ReaderAction::DrawToc);
    assert_eq!(r.handle(key('s')), ReaderAction::DrawToc);
    assert_eq!(r.selected_option(), 2);
    r.handle(key('s'));
    assert_eq!(r.selected_option(), 2);
}

#[test]
fn up_at_first_is_noop() {
    let mut r = reader(3, 80, 24);
    r.move_selection(MoveDirection::Up);
    assert_eq!(r.selected_option(), 0);
    r.move_selection(MoveDirection::Down);
    r.move_selection(MoveDirection::Up);
    assert_eq!(r.selected_option(), 0);
}

#[test]
fn empty_contents_list() {
    let mut r = reader(0, 80, 24);
    r.handle(key('s'));
    assert_eq!(r.selected_option(), 0);
    assert_eq!(r.handle(key('e')), ReaderAction::Nothing);
    assert!(r.toc_rows().is_empty());
}

#[test]
fn forward_pages_stop_at_last_full_page() {
    let mut r = reader(3, 80, 22);
    assert_eq!(r.handle(key('e')), ReaderAction::OpenChapter(0));
    assert_eq!(r.open_chapter(hundred_lines()), ReaderAction::DrawContent);
    assert_eq!(r.loaded_lines().len(), 100);
    assert_eq!(r.first_line(), 0);
    assert_eq!(r.handle(key('d')), ReaderAction::DrawContent);
    assert_eq!(r.first_line(), 18);
    for _ in 0..10 {
        r.handle(key('d'));
    }
    assert_eq!(r.first_line(), 82);
    assert_eq!(r.handle(key('d')), ReaderAction::Nothing);
    assert_eq!(r.first_line(), 82);
    let (shown, row) = r.page();
    assert_eq!(row, 2);
    assert_eq!(shown.len(), 18);
    assert_eq!(shown[0], "line82");
    assert_eq!(shown[17], "line99");
}

#[test]
fn back_pages_stop_at_first_line() {
    let mut r = reader(1, 80, 22);
    r.open_chapter(hundred_lines());
    assert_eq!(r.handle(key('a')), ReaderAction::Nothing);
    assert_eq!(r.first_line(), 0);
    r.handle(key('d'));
    r.handle(key('d'));
    assert_eq!(r.first_line(), 36);
    r.handle(key('a'));
    assert_eq!(r.first_line(), 18);
    r.handle(key('a'));
    r.handle(key('a'));
    assert_eq!(r.first_line(), 0);
}

#[test]
fn back_returns_to_contents_and_drops_chapter() {
    let mut r = reader(3, 80, 22);
    r.handle(key('s'));
    assert_eq!(r.handle(key('e')), ReaderAction::OpenChapter(1));
    r.open_chapter(hundred_lines());
    r.handle(key('d'));
    assert_eq!(r.state(), ReaderState::ContentShown);
    assert_eq!(r.handle(key('q')), ReaderAction::DrawToc);
    assert_eq!(r.state(), ReaderState::TocShown);
    assert_eq!(r.selected_option(), 1);
    assert!(r.loaded_lines().is_empty());
    assert_eq!(r.first_line(), 0);
    assert_eq!(r.handle(key('e')), ReaderAction::OpenChapter(1));
    r.open_chapter(vec!["other".to_string()]);
    assert_eq!(r.loaded_lines(), &vec!["other".to_string()]);
    assert_eq!(r.first_line(), 0);
}

#[test]
fn back_in_contents_exits() {
    let mut r = reader(2, 80, 24);
    assert_eq!(r.handle(key('q')), ReaderAction::Exit);
}

#[test]
fn keys_out_of_their_view_do_nothing() {
    let mut r = reader(2, 80, 24);
    assert_eq!(r.handle(key('d')), ReaderAction::Nothing);
    assert_eq!(r.handle(key('x')), ReaderAction::Nothing);
    r.open_chapter(hundred_lines());
    assert_eq!(r.handle(key('s')), ReaderAction::Nothing);
    assert_eq!(r.handle(key('e')), ReaderAction::Nothing);
    assert_eq!(r.state(), ReaderState::ContentShown);
}

#[test]
fn resize_rewraps_open_chapter() {
    let mut r = reader(1, 20, 10);
    r.open_chapter(vec!["aa bb cc dd ee ff".to_string()]);
    assert_eq!(r.loaded_lines().len(), 1);
    assert_eq!(r.handle(ReaderEvent::Resize(TermSize { width: 5, height: 10 })), ReaderAction::DrawContent);
    assert_eq!(r.terminal_size(), TermSize { width: 5, height: 10 });
    assert_eq!(r.loaded_lines(), &vec!["aa bb".to_string(), "cc dd".to_string(), "ee ff".to_string()]);
}

#[test]
fn resize_keeps_offset_within_content() {
    let mut r = reader(1, 10, 6);
    let words: Vec<String> = (0..30).map(|_| "a b c d e".to_string()).collect();
    r.open_chapter(words);
    assert_eq!(r.loaded_lines().len(), 30);
    for _ in 0..20 {
        r.handle(key('d'));
    }
    assert_eq!(r.first_line(), 28);
    r.handle(ReaderEvent::Resize(TermSize { width: 80, height: 6 }));
    assert_eq!(r.loaded_lines().len(), 30);
    assert_eq!(r.first_line(), 28);
    r.open_chapter(vec!["x".to_string(); 3]);
    r.handle(ReaderEvent::Resize(TermSize { width: 80, height: 6 }));
    assert!(r.first_line() <= 2);
}

#[test]
fn resize_in_contents_redraws_list() {
    let mut r = reader(2, 80, 24);
    assert_eq!(r.handle(ReaderEvent::Resize(TermSize { width: 40, height: 10 })), ReaderAction::DrawToc);
    assert_eq!(r.terminal_size().width, 40);
}

#[test]
fn contents_rows_are_centred() {
    let r = reader(3, 40, 24);
    let rows = r.toc_rows();
    assert_eq!(rows.len(), 3);
    assert_eq!(rows[0].row, 2);
    assert_eq!(rows[2].row, 4);
    assert_eq!(rows[0].column, 20 - 4);
    assert_ne!(rows[0].text, rows[1].text);
}

#[test]
fn paging_arithmetic() {
    assert_eq!(next_page(0, 100, 18), 18);
    assert_eq!(next_page(72, 100, 18), 82);
    assert_eq!(next_page(82, 100, 18), 82);
    assert_eq!(next_page(0, 10, 18), 0);
    assert_eq!(next_page(5, 10, 0), 5);
    assert_eq!(previous_page(10, 18), 0);
    assert_eq!(previous_page(36, 18), 18);
    assert_eq!(previous_page(0, 18), 0);
    assert_eq!(lines_per_page(22, 2), 18);
    assert_eq!(lines_per_page(3, 2), 0);
}

#[test]
fn slice_of_visible_lines() {
    let content: Vec<String> = (0..5).map(|i| i.to_string()).collect();
    let (part, row) = visible_slice(&content, 3, TermSize { width: 10, height: 6 }, 1);
    assert_eq!(part, vec!["3".to_string(), "4".to_string()]);
    assert_eq!(row, 1);
    let (none, _) = visible_slice(&content, 9, TermSize { width: 10, height: 6 }, 1);
    assert!(none.is_empty());
}

#[test]
fn config_text_defaults() {
    let c = ReaderConfig::load_from_file("");
    assert_eq!(c.margin_x, 30);
    assert_eq!(c.margin_y, 5);
    assert_eq!(c.tmp_path, "./tmp");
    assert_eq!(c.keys.select, 'e');
}

#[test]
fn config_text_settings() {
    let c = ReaderConfig::load_from_file("margin_x 4\nmargin_y 1\nup k\ndown j\ntmp_path /var/tmp/books\n");
    assert_eq!(c.margin_x, 4);
    assert_eq!(c.margin_y, 1);
    assert_eq!(c.keys.up, 'k');
    assert_eq!(c.keys.down, 'j');
    assert_eq!(c.keys.back, 'q');
    assert_eq!(c.tmp_path, "/var/tmp/books");
}

#[test]
fn config_text_bad_values_are_ignored() {
    let c = ReaderConfig::load_from_file("margin_x 70000 margin_y x1 up kk colour red left");
    assert_eq!(c.margin_x, 30);
    assert_eq!(c.margin_y, 5);
    assert_eq!(c.keys.up, 'w');
    assert_eq!(c.keys.left, 'a');
    let d = ReaderConfig::load_from_file("margin_x 65535 right l");
    assert_eq!(d.margin_x, 65535);
    assert_eq!(d.keys.right, 'l');
}
