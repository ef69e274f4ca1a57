//! Locating a book's contents: the package file, the navigation file, and its entries.
use vstd::prelude::*;
use vstd::string::StringExecFns;
use crate::misc::Toc;
use crate::text::{chars_of, string_of, sub_chars};

verus! {

/// Finds the package file named in the archive's `container.xml`.
pub const ROOTFILE_PATTERN: &'static str = "<rootfile.*full-path=\"(.*?)\".*";

/// Finds the package item that names the navigation file.
pub const NCX_ITEM_PATTERN: &'static str = "(<.*application/x-dtbncx\\+xml.*/>)";

/// Finds the `href` of an item.
pub const HREF_PATTERN: &'static str = "<.*href=\"(.*?)\".*/>";

/// The text of the first capture group of the left-most match of `pattern` in `text`.
pub uninterp spec fn first_group(pattern: Seq<char>, text: Seq<char>) -> Option<Seq<char>>;

/// Relies on regex's `Regex::new`, `Regex::captures` and `Captures::get`: the first capture
/// group of the left-most match, if the pattern compiles, matches, and the group takes part.
#[verifier::external_body]
fn first_capture(pattern: &str, text: &str) -> (r: Option<String>)
    ensures
        r matches Some(g) ==> first_group(pattern@, text@) == Some(g@),
        r is None ==> first_group(pattern@, text@) is None,
{
    let re = regex::Regex::new(pattern).ok()?;
    let caps = re.captures(text)?;
    caps.get(1).map(|m| m.as_str().to_string())
}

/// `name` inside the folder `dir` (`name` alone when `dir` is empty).
pub open spec fn join_path(dir: Seq<char>, name: Seq<char>) -> Seq<char> {
    if dir.len() == 0 { name } else { dir + seq!['/'] + name }
}

/// The index of the last `c` in `s`.
pub open spec fn last_index(s: Seq<char>, c: char) -> Option<int>
    decreases s.len(),
{
    if s.len() == 0 {
        None
    } else if s.last() == c {
        Some(s.len() - 1)
    } else {
        last_index(s.drop_last(), c)
    }
}

/// The index of the first `c` in `s`.
pub open spec fn first_index(s: Seq<char>, c: char) -> Option<int>
    decreases s.len(),
{
    if s.len() == 0 {
        None
    } else {
        match first_index(s.drop_last(), c) {
            Some(i) => Some(i),
            None => if s.last() == c { Some(s.len() - 1) } else { None },
        }
    }
}

/// The folder part of a path: what stands before its last `/`, or nothing.
pub open spec fn parent_dir(path: Seq<char>) -> Seq<char> {
    match last_index(path, '/') {
        Some(i) => path.take(i),
        None => Seq::empty(),
    }
}

proof fn lemma_last_index_bound(s: Seq<char>, c: char)
    ensures
        last_index(s, c) matches Some(i) ==> 0 <= i < s.len(),
    decreases s.len(),
{
    if s.len() > 0 {
        lemma_last_index_bound(s.drop_last(), c);
    }
}

proof fn lemma_first_index_bound(s: Seq<char>, c: char)
    ensures
        first_index(s, c) matches Some(i) ==> 0 <= i < s.len() && s[i] == c,
    decreases s.len(),
{
    if s.len() > 0 {
        lemma_first_index_bound(s.drop_last(), c);
    }
}

/// The index of the last `c` in `v`.
pub fn find_last(v: &Vec<char>, c: char) -> (r: Option<usize>)
    ensures
        r matches Some(i) ==> last_index(v@, c) == Some(i as int),
        r is None ==> last_index(v@, c) is None,
{
    let mut found: Option<usize> = None;
    let mut i: usize = 0;
    assert(v@.take(0) =~= Seq::<char>::empty());
    while i < v.len()
        invariant
            i <= v.len(),
            found matches Some(k) ==> last_index(v@.take(i as int), c) == Some(k as int),
            found is None ==> last_index(v@.take(i as int), c) is None,
        decreases v.len() - i,
    {
        assert(v@.take(i + 1).drop_last() =~= v@.take(i as int));
        if v[i] == c {
            found = Some(i);
        }
        i = i + 1;
    }
    assert(v@.take(v.len() as int) =~= v@);
    found
}

/// The index of the first `c` in `v`.
pub fn find_first(v: &Vec<char>, c: char) -> (r: Option<usize>)
    ensures
        r matches Some(i) ==> first_index(v@, c) == Some(i as int),
        r is None ==> first_index(v@, c) is None,
{
    let mut i: usize = 0;
    assert(v@.take(0) =~= Seq::<char>::empty());
    while i < v.len()
        invariant
            i <= v.len(),
            first_index(v@.take(i as int), c) is None,
        decreases v.len() - i,
    {
        assert(v@.take(i + 1).drop_last() =~= v@.take(i as int));
        if v[i] == c {
            proof {
                lemma_first_index_prefix(v@, c, i as int);
            }
            return Some(i);
        }
        i = i + 1;
    }
    assert(v@.take(v.len() as int) =~= v@);
    None
}

proof fn lemma_first_index_prefix(s: Seq<char>, c: char, i: int)
    requires
        0 <= i < s.len(),
        s[i] == c,
        first_index(s.take(i), c) is None,
    ensures
        first_index(s, c) == Some(i),
    decreases s.len(),
{
    if s.len() - 1 == i {
        assert(s.drop_last() =~= s.take(i));
    } else {
        assert(s.drop_last().take(i) =~= s.take(i));
        lemma_first_index_prefix(s.drop_last(), c, i);
    }
}

/// `name` inside the folder `dir`.
pub fn join(dir: &Vec<char>, name: &Vec<char>) -> (r: String)
    ensures
        r@ == join_path(dir@, name@),
{
    if dir.len() == 0 {
        string_of(name)
    } else {
        let mut r = string_of(dir);
        let slash = String::from_str("/");
        proof {
            reveal_strlit("/");
        }
        r.append(slash.as_str());
        r.append(string_of(name).as_str());
        r
    }
}

/// The path of the package file, inside the folder where the archive was extracted, as the
/// archive's `container.xml` names it.
pub fn package_path(extract_dir: &str, container_xml: &str) -> (r: Option<String>)
    ensures
        match first_group(ROOTFILE_PATTERN@, container_xml@) {
            Some(g) => r matches Some(p) && p@ == join_path(extract_dir@, g),
            None => r is None,
        },
{
    match first_capture(ROOTFILE_PATTERN, container_xml) {
        Some(g) => Some(join(&chars_of(extract_dir), &chars_of(g.as_str()))),
        None => None,
    }
}

/// The path of the navigation file: the `href` of the package item of the navigation type,
/// inside the package file's folder.
pub fn navigation_path(package_path: &str, package_xml: &str) -> (r: Option<String>)
    ensures
        match first_group(NCX_ITEM_PATTERN@, package_xml@) {
            Some(item) => match first_group(HREF_PATTERN@, item) {
                Some(h) => r matches Some(p) && p@ == join_path(parent_dir(package_path@), h),
                None => r is None,
            },
            None => r is None,
        },
{
    match first_capture(NCX_ITEM_PATTERN, package_xml) {
        Some(item) => match first_capture(HREF_PATTERN, item.as_str()) {
            Some(h) => Some(join(&folder_of(package_path), &chars_of(h.as_str()))),
            None => None,
        },
        None => None,
    }
}

/// The folder part of `path`.
pub fn folder_of(path: &str) -> (r: Vec<char>)
    ensures
        r@ == parent_dir(path@),
{
    let p = chars_of(path);
    match find_last(&p, '/') {
        Some(i) => {
            proof {
                lemma_last_index_bound(p@, '/');
            }
            sub_chars(&p, 0, i)
        },
        None => Vec::new(),
    }
}

/// The contents entry of a navigation point: its `src` splits at `#` into the file, inside
/// `toc_dir`, and the anchor, kept only when `src` holds exactly one `#`.
pub open spec fn nav_src(toc_dir: Seq<char>, src: Seq<char>) -> Seq<char> {
    match first_index(src, '#') {
        Some(i) => join_path(toc_dir, src.take(i)),
        None => join_path(toc_dir, src),
    }
}

pub open spec fn nav_marker(src: Seq<char>) -> Seq<char> {
    match first_index(src, '#') {
        Some(i) => if last_index(src, '#') == Some(i) { src.skip(i + 1) } else { Seq::empty() },
        None => Seq::empty(),
    }
}

impl Toc {
    /// The entry of a navigation point with content `src` and label `label`, in a navigation
    /// file whose folder is `toc_dir`.
    pub fn from_nav_point(toc_dir: &str, src: &str, label: &str) -> (r: Toc)
        ensures
            r.src@ == nav_src(toc_dir@, src@),
            r.marker@ == nav_marker(src@),
            r.text@ == label@,
    {
        let dir = chars_of(toc_dir);
        let s = chars_of(src);
        match find_first(&s, '#') {
            Some(i) => {
                proof {
                    lemma_first_index_bound(s@, '#');
                }
                let file = join(&dir, &sub_chars(&s, 0, i));
                let marker = match find_last(&s, '#') {
                    Some(j) => if j == i {
                        string_of(&sub_chars(&s, i + 1, s.len()))
                    } else {
                        String::new()
                    },
                    None => String::new(),
                };
                proof {
                    assert(s@.take(i as int) =~= s@.subrange(0, i as int));
                    assert(s@.skip(i + 1) =~= s@.subrange(i + 1, s@.len() as int));
                }
                Toc::new(file, marker, String::from_str(label))
            },
            None => Toc::new(join(&dir, &s), String::new(), String::from_str(label)),
        }
    }
}

/// The contents list of a navigation file at `toc_path`, from its navigation points in order,
/// each given as its label and its content `src`.
pub fn contents_list(toc_path: &str, points: &Vec<(String, String)>) -> (r: Vec<Toc>)
    ensures
        r@.len() == points@.len(),
        forall|i: int|
            #![trigger r@[i]]
            0 <= i < r@.len() ==> {
                &&& r@[i].text@ == points@[i].0@
                &&& r@[i].src@ == nav_src(parent_dir(toc_path@), points@[i].1@)
                &&& r@[i].marker@ == nav_marker(points@[i].1@)
            },
{
    let dir = string_of(&folder_of(toc_path));
    let mut out: Vec<Toc> = Vec::new();
    let mut i: usize = 0;
    while i < points.len()
        invariant
            i <= points.len(),
            dir@ == parent_dir(toc_path@),
            out@.len() == i,
            forall|j: int|
                #![trigger out@[j]]
                0 <= j < i ==> {
                    &&& out@[j].text@ == points@[j].0@
                    &&& out@[j].src@ == nav_src(parent_dir(toc_path@), points@[j].1@)
                    &&& out@[j].marker@ == nav_marker(points@[j].1@)
                },
        decreases points.len() - i,
    {
        let entry = Toc::from_nav_point(dir.as_str(), points[i].1.as_str(), points[i].0.as_str());
        out.push(entry);
        i = i + 1;
    }
    out
}

} // verus!
