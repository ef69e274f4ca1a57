use papcio::manifest::{contents_list, navigation_path, package_path};
use papcio::misc::Toc;

const CONTAINER: &str = "<?xml version=\"1.0\"?>\n<container version=\"1.0\">\n<rootfiles>\n<rootfile full-path=\"OEBPS/content.opf\" media-type=\"application/oebps-package+xml\"/>\n</rootfiles>\n</container>";

const PACKAGE: &str = "<manifest>\n<item id=\"style\" href=\"style.css\" media-type=\"text/css\"/>\n<item id=\"ncx\" href=\"toc.ncx\" media-type=\"application/x-dtbncx+xml\"/>\n</manifest>";

#[test]
fn package_file_from_container() {
    assert_eq!(
        package_path("./tmp/book", CONTAINER),
        Some("./tmp/book/OEBPS/content.opf".to_string())
    );
    assert_eq!(package_path("", CONTAINER), Some("OEBPS/content.opf".to_string()));
}

#[test]
fn container_without_rootfile() {
    assert_eq!(package_path("./tmp/book", "<container></container>"), None);
}

#[test]
fn navigation_file_beside_package() {
    assert_eq!(
        navigation_path("./tmp/book/OEBPS/content.opf", PACKAGE),
        Some("./tmp/book/OEBPS/toc.ncx".to_string())
    );
    assert_eq!(navigation_path("content.opf", PACKAGE), Some("toc.ncx".to_string()));
}

#[test]
fn package_without_navigation_item() {
    assert_eq!(navigation_path("a/content.opf", "<item href=\"x\" media-type=\"text/css\"/>"), None);
}

#[test]
fn nav_point_with_anchor() {
    let t = Toc::from_nav_point("dir", "ch1.html#sec2", "One");
    assert_eq!(t.src, "dir/ch1.html");
    assert_eq!(t.marker, "sec2");
    assert_eq!(t.text, "One");
}

#[test]
fn nav_point_without_anchor() {
    let t = Toc::from_nav_point("dir", "ch1.html", "One");
    assert_eq!(t.src, "dir/ch1.html");
    assert_eq!(t.marker, "");
}

#[test]
fn nav_point_with_two_hashes_drops_anchor() {
    let t = Toc::from_nav_point("dir", "ch1.html#a#b", "One");
    assert_eq!(t.src, "dir/ch1.html");
    assert_eq!(t.marker, "");
}

#[test]
fn contents_list_keeps_order() {
    let points = vec![
        ("First".to_string(), "a.html".to_string()),
        ("Second".to_string(), "b.html#x".to_string()),
    ];
    let list = contents_list("book/OEBPS/toc.ncx", &points);
    assert_eq!(list.len(), 2);
    assert_eq!(list[0].text, "First");
    assert_eq!(list[0].src, "book/OEBPS/a.html");
    assert_eq!(list[1].src, "book/OEBPS/b.html");
    assert_eq!(list[1].marker, "x");
}
