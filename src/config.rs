//! The reader's settings: margins, extraction folder and keymap.
use vstd::prelude::*;
use vstd::string::StringExecFns;
use crate::styler::same_chars;
use crate::text::{chars_of, string_of};
use crate::wrap::{split_words, views, words_of};

verus! {

/// The keys that drive the reader.
#[derive(PartialEq, Eq, Structural, Clone, Copy, Debug)]
pub struct InputKeys {
    pub select: char,
    pub up: char,
    pub down: char,
    pub back: char,
    pub left: char,
    pub right: char,
}

/// The default keymap: `e` selects, `w`/`s` move up and down, `q` goes back, `a`/`d` page.
pub open spec fn default_keys() -> InputKeys {
    InputKeys { select: 'e', up: 'w', down: 's', back: 'q', left: 'a', right: 'd' }
}

/// Layout and key settings of the reader.
pub struct ReaderConfig {
    pub margin_x: u16,
    pub margin_y: u16,
    pub tmp_path: String,
    pub keys: InputKeys,
}

impl ReaderConfig {
    /// The configuration that the text of a configuration file gives: whitespace-separated
    /// `name value` pairs over the defaults (margins 30 and 5, folder `./tmp`, default keys).
    /// `margin_x` and `margin_y` take a decimal number, `tmp_path` a word, and `select`, `up`,
    /// `down`, `back`, `left`, `right` one character each.
    pub fn load_from_file(config_text: &str) -> (r: Self)
        ensures
            view_of(&r) == with_settings(default_config(), words_of(config_text@)),
    {
        let words = split_words(&chars_of(config_text));
        let mut config = ReaderConfig::new(30, 5, "./tmp");
        proof {
            reveal_strlit("./tmp");
            assert(config.tmp_path@ =~= seq!['.', '/', 't', 'm', 'p']);
            assert(view_of(&config) == default_config());
        }
        let ghost ws = views(words@);
        let mut i: usize = 0;
        assert(ws.skip(0) =~= ws);
        while i < words.len() && words.len() - i >= 2
            invariant
                ws == views(words@),
                ws == words_of(config_text@),
                i <= words.len(),
                with_settings(default_config(), ws) == with_settings(view_of(&config), ws.skip(i as int)),
            decreases words.len() - i,
        {
            assert(ws.skip(i as int).skip(2) =~= ws.skip(i + 2));
            assert(ws.skip(i as int)[0] == words@[i as int]@);
            assert(ws.skip(i as int)[1] == words@[i + 1]@);
            config.apply(&words[i], &words[i + 1]);
            i = i + 2;
        }
        config
    }

    /// Applies one `name value` setting.
    fn apply(&mut self, name: &Vec<char>, value: &Vec<char>)
        ensures
            view_of(final(self)) == with_setting(view_of(old(self)), name@, value@),
    {
        let margin_x = vec!['m', 'a', 'r', 'g', 'i', 'n', '_', 'x'];
        let margin_y = vec!['m', 'a', 'r', 'g', 'i', 'n', '_', 'y'];
        let tmp_path = vec!['t', 'm', 'p', '_', 'p', 'a', 't', 'h'];
        let select = vec!['s', 'e', 'l', 'e', 'c', 't'];
        let up = vec!['u', 'p'];
        let down = vec!['d', 'o', 'w', 'n'];
        let back = vec!['b', 'a', 'c', 'k'];
        let left = vec!['l', 'e', 'f', 't'];
        let right = vec!['r', 'i', 'g', 'h', 't'];
        proof {
            assert(margin_x@ =~= margin_x_name());
            assert(margin_y@ =~= margin_y_name());
            assert(tmp_path@ =~= tmp_path_name());
            assert(select@ =~= select_name());
            assert(up@ =~= up_name());
            assert(down@ =~= down_name());
            assert(back@ =~= back_name());
            assert(left@ =~= left_name());
            assert(right@ =~= right_name());
        }
        if same_chars(name, &margin_x) {
            match parse_number(value) {
                Some(n) => self.margin_x = n,
                None => {},
            }
        } else if same_chars(name, &margin_y) {
            match parse_number(value) {
                Some(n) => self.margin_y = n,
                None => {},
            }
        } else if same_chars(name, &tmp_path) {
            self.tmp_path = string_of(value);
        } else if value.len() != 1 {
        } else if same_chars(name, &select) {
            self.keys.select = value[0];
        } else if same_chars(name, &up) {
            self.keys.up = value[0];
        } else if same_chars(name, &down) {
            self.keys.down = value[0];
        } else if same_chars(name, &back) {
            self.keys.back = value[0];
        } else if same_chars(name, &left) {
            self.keys.left = value[0];
        } else if same_chars(name, &right) {
            self.keys.right = value[0];
        }
    }

    /// A configuration with the given margins and extraction folder, and the default keymap.
    pub fn new(margin_x: u16, margin_y: u16, tmp_path: &str) -> (r: Self)
        ensures
            r.margin_x == margin_x,
            r.margin_y == margin_y,
            r.tmp_path@ == tmp_path@,
            r.keys == default_keys(),
    {
        ReaderConfig {
            margin_y,
            margin_x,
            tmp_path: String::from_str(tmp_path),
            keys: InputKeys { select: 'e', up: 'w', down: 's', back: 'q', left: 'a', right: 'd' },
        }
    }
}

/// A configuration as mathematical values.
pub struct ConfigView {
    pub margin_x: u16,
    pub margin_y: u16,
    pub tmp_path: Seq<char>,
    pub keys: InputKeys,
}

pub open spec fn view_of(c: &ReaderConfig) -> ConfigView {
    ConfigView { margin_x: c.margin_x, margin_y: c.margin_y, tmp_path: c.tmp_path@, keys: c.keys }
}

/// The configuration used where a configuration file sets nothing.
pub open spec fn default_config() -> ConfigView {
    ConfigView { margin_x: 30, margin_y: 5, tmp_path: seq!['.', '/', 't', 'm', 'p'], keys: default_keys() }
}

pub open spec fn margin_x_name() -> Seq<char> {
    seq!['m', 'a', 'r', 'g', 'i', 'n', '_', 'x']
}

pub open spec fn margin_y_name() -> Seq<char> {
    seq!['m', 'a', 'r', 'g', 'i', 'n', '_', 'y']
}

pub open spec fn tmp_path_name() -> Seq<char> {
    seq!['t', 'm', 'p', '_', 'p', 'a', 't', 'h']
}

pub open spec fn select_name() -> Seq<char> {
    seq!['s', 'e', 'l', 'e', 'c', 't']
}

pub open spec fn up_name() -> Seq<char> {
    seq!['u', 'p']
}

pub open spec fn down_name() -> Seq<char> {
    seq!['d', 'o', 'w', 'n']
}

pub open spec fn back_name() -> Seq<char> {
    seq!['b', 'a', 'c', 'k']
}

pub open spec fn left_name() -> Seq<char> {
    seq!['l', 'e', 'f', 't']
}

pub open spec fn right_name() -> Seq<char> {
    seq!['r', 'i', 'g', 'h', 't']
}

pub open spec fn is_digit(c: char) -> bool {
    '0' <= c && c <= '9'
}

pub open spec fn all_digits(s: Seq<char>) -> bool {
    forall|i: int| 0 <= i < s.len() ==> is_digit(#[trigger] s[i])
}

/// The value of a string of decimal digits.
pub open spec fn decimal(s: Seq<char>) -> int
    decreases s.len(),
{
    if s.len() == 0 {
        0
    } else {
        decimal(s.drop_last()) * 10 + (s.last() as int - '0' as int)
    }
}

/// The number that `s` writes in decimal, when it is one that fits a `u16`.
pub open spec fn number_of(s: Seq<char>) -> Option<u16> {
    if s.len() > 0 && all_digits(s) && decimal(s) <= 65535 {
        Some(decimal(s) as u16)
    } else {
        None
    }
}

/// The configuration after one `name value` setting; settings that name nothing known, or
/// whose value does not fit, change nothing. Keys take a value of one character.
pub open spec fn with_setting(c: ConfigView, name: Seq<char>, value: Seq<char>) -> ConfigView {
    if name == margin_x_name() {
        match number_of(value) {
            Some(n) => ConfigView { margin_x: n, ..c },
            None => c,
        }
    } else if name == margin_y_name() {
        match number_of(value) {
            Some(n) => ConfigView { margin_y: n, ..c },
            None => c,
        }
    } else if name == tmp_path_name() {
        ConfigView { tmp_path: value, ..c }
    } else if value.len() != 1 {
        c
    } else if name == select_name() {
        ConfigView { keys: InputKeys { select: value[0], ..c.keys }, ..c }
    } else if name == up_name() {
        ConfigView { keys: InputKeys { up: value[0], ..c.keys }, ..c }
    } else if name == down_name() {
        ConfigView { keys: InputKeys { down: value[0], ..c.keys }, ..c }
    } else if name == back_name() {
        ConfigView { keys: InputKeys { back: value[0], ..c.keys }, ..c }
    } else if name == left_name() {
        ConfigView { keys: InputKeys { left: value[0], ..c.keys }, ..c }
    } else if name == right_name() {
        ConfigView { keys: InputKeys { right: value[0], ..c.keys }, ..c }
    } else {
        c
    }
}

/// The configuration after the settings that `words` hold as `name value` pairs, in order; a
/// last word without a value is left out.
pub open spec fn with_settings(c: ConfigView, words: Seq<Seq<char>>) -> ConfigView
    decreases words.len(),
{
    if words.len() < 2 {
        c
    } else {
        with_settings(with_setting(c, words[0], words[1]), words.skip(2))
    }
}

proof fn lemma_decimal_grows(s: Seq<char>, i: int)
    requires
        0 <= i <= s.len(),
        all_digits(s),
    ensures
        decimal(s.take(i)) <= decimal(s),
        0 <= decimal(s.take(i)),
    decreases s.len(),
{
    if s.len() > 0 {
        assert(all_digits(s.drop_last()));
        if i == s.len() {
            assert(s.take(i) =~= s);
            lemma_decimal_grows(s.drop_last(), i - 1);
            assert(s.drop_last().take(i - 1) =~= s.drop_last());
        } else {
            assert(s.drop_last().take(i) =~= s.take(i));
            lemma_decimal_grows(s.drop_last(), i);
            lemma_decimal_grows(s.drop_last(), s.len() - 1);
            assert(s.drop_last().take(s.len() - 1) =~= s.drop_last());
        }
    }
}

/// The number that `s` writes in decimal, when it fits a `u16`.
pub fn parse_number(s: &Vec<char>) -> (r: Option<u16>)
    ensures
        r == number_of(s@),
{
    if s.len() == 0 {
        return None;
    }
    let mut acc: u32 = 0;
    let mut i: usize = 0;
    assert(s@.take(0) =~= Seq::<char>::empty());
    while i < s.len()
        invariant
            i <= s.len(),
            s.len() > 0,
            acc as int == decimal(s@.take(i as int)),
            acc <= 65535,
            all_digits(s@.take(i as int)),
        decreases s.len() - i,
    {
        let c = s[i];
        assert(s@.take(i + 1).drop_last() =~= s@.take(i as int));
        if !('0' <= c && c <= '9') {
            assert(!is_digit(s@[i as int]));
            return None;
        }
        let next = acc * 10 + (c as u32 - '0' as u32);
        assert(all_digits(s@.take(i + 1)));
        if next > 65535 {
            proof {
                if all_digits(s@) {
                    lemma_decimal_grows(s@, i + 1);
                }
            }
            return None;
        }
        acc = next;
        i = i + 1;
    }
    assert(s@.take(s.len() as int) =~= s@);
    Some(acc as u16)
}


} // verus!
