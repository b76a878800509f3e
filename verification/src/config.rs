//! The shell's settings, and the text of its settings file
//! (`~/.config/trimangees/shell.toml`): `key = value` lines, `#` comments.
use vstd::prelude::*;
use crate::text::{
    append, chars_of, first_index, lemma_first_index, lemma_first_index_bounds, lemma_rspan,
    lemma_span, owned, push_char, rspan, str_eq, string_from_chars, trim, trimmed,
};

verus! {

/// The shell's settings.
pub struct Config {
    pub wallpaper: String,
    pub theme: String,
    pub accent_color: String,
    pub default_browser: String,
    pub default_terminal: String,
    /// The accent colour the renderer uses.
    pub accent_r: u8,
    pub accent_g: u8,
    pub accent_b: u8,
    pub wallpaper_preset: u8,
}

/// The settings as plain values.
#[verifier::ext_equal]
pub struct ConfigModel {
    pub wallpaper: Seq<char>,
    pub theme: Seq<char>,
    pub accent_color: Seq<char>,
    pub default_browser: Seq<char>,
    pub default_terminal: Seq<char>,
    pub accent_r: u8,
    pub accent_g: u8,
    pub accent_b: u8,
    pub wallpaper_preset: u8,
}

impl View for Config {
    type V = ConfigModel;

    open spec fn view(&self) -> ConfigModel {
        ConfigModel {
            wallpaper: self.wallpaper@,
            theme: self.theme@,
            accent_color: self.accent_color@,
            default_browser: self.default_browser@,
            default_terminal: self.default_terminal@,
            accent_r: self.accent_r,
            accent_g: self.accent_g,
            accent_b: self.accent_b,
            wallpaper_preset: self.wallpaper_preset,
        }
    }
}

/// The settings a fresh install starts with.
pub open spec fn default_model() -> ConfigModel {
    ConfigModel {
        wallpaper: "galaxy.jpg"@,
        theme: "dark"@,
        accent_color: "purple"@,
        default_browser: "Browser"@,
        default_terminal: "Terminal"@,
        accent_r: 72,
        accent_g: 138,
        accent_b: 240,
        wallpaper_preset: 0,
    }
}

/// The number of leading `c` in `s`.
pub open spec fn lead(s: Seq<char>, c: char) -> nat
    decreases s.len(),
{
    if s.len() == 0 || s[0] != c {
        0
    } else {
        1 + lead(s.drop_first(), c)
    }
}

/// The number of trailing `c` in `s`.
pub open spec fn trail(s: Seq<char>, c: char) -> nat
    decreases s.len(),
{
    if s.len() == 0 || s.last() != c {
        0
    } else {
        1 + trail(s.drop_last(), c)
    }
}

/// `s` without leading and trailing `c`, as `str::trim_matches(c)` returns it.
pub open spec fn trim_char(s: Seq<char>, c: char) -> Seq<char> {
    let t = s.skip(lead(s, c) as int);
    t.take(t.len() - trail(t, c))
}

/// An ASCII digit.
pub open spec fn is_digit(c: char) -> bool {
    '0' <= c && c <= '9'
}

/// The value of a string of decimal digits.
pub open spec fn decimal(d: Seq<char>) -> int
    decreases d.len(),
{
    if d.len() == 0 {
        0
    } else {
        decimal(d.drop_last()) * 10 + (d.last() as int - '0' as int)
    }
}

/// The digits of `s` once an optional leading `+` is taken off.
pub open spec fn unsigned_digits(s: Seq<char>) -> Seq<char> {
    if s.len() > 0 && s[0] == '+' {
        s.drop_first()
    } else {
        s
    }
}

/// What `s.parse::<u8>()` gives: an optional `+`, then one or more decimal
/// digits whose value is at most 255.
pub open spec fn u8_of(s: Seq<char>) -> Option<u8> {
    let d = unsigned_digits(s);
    if d.len() > 0 && (forall|k: int| 0 <= k < d.len() ==> is_digit(#[trigger] d[k])) && decimal(d)
        <= 255 {
        Some(decimal(d) as u8)
    } else {
        None
    }
}

/// The number parsed from `s`, or `fallback` when `s` is not one.
pub open spec fn u8_or(s: Seq<char>, fallback: u8) -> u8 {
    match u8_of(s) {
        Some(v) => v,
        None => fallback,
    }
}

/// The settings after one line of the settings file. The line is trimmed; a
/// line that starts with `#` or has no `=` changes nothing. Otherwise the
/// key before the first `=` and the value after it are trimmed, the value
/// loses its surrounding double quotes, and a known key takes the value; a
/// number that does not parse gives that setting's default.
pub open spec fn apply_line(m: ConfigModel, line: Seq<char>) -> ConfigModel {
    let t = trimmed(line);
    let e = first_index(t, '=');
    if (t.len() > 0 && t[0] == '#') || e == t.len() {
        m
    } else {
        let key = trimmed(t.take(e));
        let val = trim_char(trimmed(t.skip(e + 1)), '"');
        if key == "theme"@ {
            ConfigModel { theme: val, ..m }
        } else if key == "wallpaper"@ {
            ConfigModel { wallpaper: val, ..m }
        } else if key == "wallpaper_preset"@ {
            ConfigModel { wallpaper_preset: u8_or(val, 0), ..m }
        } else if key == "accent_color"@ {
            ConfigModel { accent_color: val, ..m }
        } else if key == "accent_r"@ {
            ConfigModel { accent_r: u8_or(val, 72), ..m }
        } else if key == "accent_g"@ {
            ConfigModel { accent_g: u8_or(val, 138), ..m }
        } else if key == "accent_b"@ {
            ConfigModel { accent_b: u8_or(val, 240), ..m }
        } else {
            m
        }
    }
}

/// The settings after each line of `s`, in order, lines being separated by
/// `\n`.
pub open spec fn apply_lines(m: ConfigModel, s: Seq<char>) -> ConfigModel
    decreases s.len(),
{
    let e = first_index(s, '\n');
    if e >= s.len() {
        apply_line(m, s)
    } else {
        proof {
            lemma_first_index_bounds(s, '\n');
        }
        apply_lines(apply_line(m, s.take(e)), s.skip(e + 1))
    }
}

/// The settings a settings file holding `text` gives: the defaults, changed
/// by its lines.
pub open spec fn parse_config(text: Seq<char>) -> ConfigModel {
    apply_lines(default_model(), text)
}

/// The decimal digits of `n`, without leading zeros.
pub open spec fn dec(n: nat) -> Seq<char>
    decreases n,
{
    if n < 10 {
        seq![digit_char(n)]
    } else {
        dec(n / 10).push(digit_char(n % 10))
    }
}

/// The digit character of `d < 10`.
pub open spec fn digit_char(d: nat) -> char {
    (d + '0' as nat) as char
}

/// The text `save` writes for the settings `m`.
pub open spec fn config_text(m: ConfigModel) -> Seq<char> {
    "# Trimangees OS \u{2014} shell config\ntheme = \""@ + m.theme + "\"\nwallpaper = \""@
        + m.wallpaper + "\"\nwallpaper_preset = "@ + dec(m.wallpaper_preset as nat)
        + "\naccent_color = \""@ + m.accent_color + "\"\naccent_r = "@ + dec(m.accent_r as nat)
        + "\naccent_g = "@ + dec(m.accent_g as nat) + "\naccent_b = "@ + dec(m.accent_b as nat)
        + "\n"@
}

/// A run of `c` from `i` to `j`, ended by the end of `s` or another
/// character, is the `lead` of `s.skip(i)`.
proof fn lemma_lead(s: Seq<char>, c: char, i: int, j: int)
    requires
        0 <= i <= j <= s.len(),
        forall|k: int| i <= k < j ==> #[trigger] s[k] == c,
        j == s.len() || s[j] != c,
    ensures
        lead(s.skip(i), c) == j - i,
    decreases j - i,
{
    if i < j {
        lemma_lead(s, c, i + 1, j);
        assert(s.skip(i).drop_first() =~= s.skip(i + 1));
    }
}

/// A run of `c` from `i` to `j`, preceded by the start of `s` or another
/// character, is the `trail` of `s.take(j)`.
proof fn lemma_trail(s: Seq<char>, c: char, i: int, j: int)
    requires
        0 <= i <= j <= s.len(),
        forall|k: int| i <= k < j ==> #[trigger] s[k] == c,
        i == 0 || s[i - 1] != c,
    ensures
        trail(s.take(j), c) == j - i,
    decreases j - i,
{
    if i < j {
        lemma_trail(s, c, i, j - 1);
        assert(s.take(j).drop_last() =~= s.take(j - 1));
    }
}

/// `s` without leading and trailing `c`, as `str::trim_matches(c)` returns it.
pub fn trim_matches(s: &str, c: char) -> (r: String)
    ensures
        r@ == trim_char(s@, c),
{
    let cs = chars_of(s);
    let n = cs.len();
    let mut a: usize = 0;
    while a < n && cs[a] == c
        invariant
            a <= n == cs@.len(),
            forall|k: int| 0 <= k < a ==> #[trigger] cs@[k] == c,
        decreases n - a,
    {
        a = a + 1;
    }
    proof {
        lemma_lead(cs@, c, 0, a as int);
        assert(cs@.skip(0) =~= cs@);
    }
    let mut b: usize = n;
    while b > a && cs[b - 1] == c
        invariant
            a <= b <= n == cs@.len(),
            forall|k: int| b <= k < n ==> #[trigger] cs@[k] == c,
        decreases b - a,
    {
        b = b - 1;
    }
    proof {
        let t = cs@.skip(a as int);
        assert(t.take(t.len() as int) =~= t);
        lemma_trail(t, c, b - a, n - a);
        assert(t.take(b - a) =~= cs@.subrange(a as int, b as int));
    }
    string_from_chars(&cs, a, b)
}

/// Digits read so far all count: the value of a longer run of digits is at
/// least that of its prefix.
proof fn lemma_decimal_grows(d: Seq<char>, i: int, j: int)
    requires
        0 <= i <= j <= d.len(),
        forall|k: int| 0 <= k < d.len() ==> is_digit(#[trigger] d[k]),
    ensures
        0 <= decimal(d.take(i)) <= decimal(d.take(j)),
    decreases j,
{
    if j > 0 {
        assert(d.take(j).drop_last() =~= d.take(j - 1));
        assert(is_digit(d[j - 1]));
        if i < j {
            lemma_decimal_grows(d, i, j - 1);
        } else {
            lemma_decimal_grows(d, i - 1, j - 1);
        }
    }
}

/// `s.parse::<u8>()`, as `Some` value or `None`.
pub fn parse_u8(s: &str) -> (r: Option<u8>)
    ensures
        r == u8_of(s@),
{
    let cs = chars_of(s);
    assert(cs@.subrange(0, cs@.len() as int) =~= s@);
    parse_u8_in(&cs, 0, cs.len())
}

/// `parse::<u8>()` of the characters `cs[from..to]`.
pub fn parse_u8_in(cs: &Vec<char>, from: usize, to: usize) -> (r: Option<u8>)
    requires
        from <= to <= cs@.len(),
    ensures
        r == u8_of(cs@.subrange(from as int, to as int)),
{
    let ghost t = cs@.subrange(from as int, to as int);
    let start: usize = if from < to && cs[from] == '+' { from + 1 } else { from };
    let ghost d = unsigned_digits(t);
    assert(d =~= cs@.subrange(start as int, to as int));
    if start == to {
        return None;
    }
    let mut v: u32 = 0;
    let mut k: usize = start;
    while k < to
        invariant
            from <= start <= k <= to <= cs@.len(),
            start < to,
            t == cs@.subrange(from as int, to as int),
            d == cs@.subrange(start as int, to as int),
            d == unsigned_digits(t),
            forall|m: int| 0 <= m < k - start ==> is_digit(#[trigger] d[m]),
            v as int == decimal(d.take(k - start)),
            v <= 255,
        decreases to - k,
    {
        let ch = cs[k];
        if !('0' <= ch && ch <= '9') {
            assert(!is_digit(d[k - start]));
            return None;
        }
        proof {
            assert(d.take(k - start + 1).drop_last() =~= d.take(k - start));
            assert(d.take(k - start + 1).last() == ch);
        }
        v = v * 10 + (ch as u32 - '0' as u32);
        if v > 255 {
            proof {
                if forall|m: int| 0 <= m < d.len() ==> is_digit(#[trigger] d[m]) {
                    lemma_decimal_grows(d, k - start + 1, d.len() as int);
                    assert(d.take(d.len() as int) =~= d);
                }
            }
            return None;
        }
        k = k + 1;
    }
    assert(d.take(to - start) =~= d);
    Some(v as u8)
}

/// What `s.parse::<u64>()` gives: an optional `+`, then one or more
/// decimal digits whose value fits in a `u64`.
pub open spec fn u64_of(s: Seq<char>) -> Option<u64> {
    let d = unsigned_digits(s);
    if d.len() > 0 && (forall|k: int| 0 <= k < d.len() ==> is_digit(#[trigger] d[k])) && decimal(d)
        <= u64::MAX {
        Some(decimal(d) as u64)
    } else {
        None
    }
}

/// `parse::<u64>()` of the characters `cs[from..to]`.
pub fn parse_u64_in(cs: &Vec<char>, from: usize, to: usize) -> (r: Option<u64>)
    requires
        from <= to <= cs@.len(),
    ensures
        r == u64_of(cs@.subrange(from as int, to as int)),
{
    let ghost t = cs@.subrange(from as int, to as int);
    let start: usize = if from < to && cs[from] == '+' { from + 1 } else { from };
    let ghost d = unsigned_digits(t);
    assert(d =~= cs@.subrange(start as int, to as int));
    if start == to {
        return None;
    }
    let mut v: u128 = 0;
    let mut k: usize = start;
    while k < to
        invariant
            from <= start <= k <= to <= cs@.len(),
            start < to,
            t == cs@.subrange(from as int, to as int),
            d == cs@.subrange(start as int, to as int),
            d == unsigned_digits(t),
            forall|m: int| 0 <= m < k - start ==> is_digit(#[trigger] d[m]),
            v as int == decimal(d.take(k - start)),
            v <= u64::MAX,
        decreases to - k,
    {
        let ch = cs[k];
        if !('0' <= ch && ch <= '9') {
            assert(!is_digit(d[k - start]));
            return None;
        }
        proof {
            assert(d.take(k - start + 1).drop_last() =~= d.take(k - start));
            assert(d.take(k - start + 1).last() == ch);
        }
        v = v * 10 + (ch as u32 - '0' as u32) as u128;
        if v > u64::MAX as u128 {
            proof {
                if forall|m: int| 0 <= m < d.len() ==> is_digit(#[trigger] d[m]) {
                    lemma_decimal_grows(d, k - start + 1, d.len() as int);
                    assert(d.take(d.len() as int) =~= d);
                }
            }
            return None;
        }
        k = k + 1;
    }
    assert(d.take(to - start) =~= d);
    Some(v as u64)
}

/// The decimal digits of `n`.
pub fn u8_to_string(n: u8) -> (r: String)
    ensures
        r@ == dec(n as nat),
{
    let mut r = String::new();
    proof {
        reveal_with_fuel(dec, 3);
    }
    if n >= 100 {
        push_char(&mut r, digit(n / 100));
        push_char(&mut r, digit((n / 10) % 10));
        push_char(&mut r, digit(n % 10));
        assert(dec((n / 10) as nat) == dec((n / 100) as nat).push(digit_char(((n / 10) % 10) as nat)));
    } else if n >= 10 {
        push_char(&mut r, digit(n / 10));
        push_char(&mut r, digit(n % 10));
    } else {
        push_char(&mut r, digit(n));
    }
    assert(r@ =~= dec(n as nat));
    r
}

/// The character of a digit.
fn digit(d: u8) -> (c: char)
    requires
        d < 10,
    ensures
        c == digit_char(d as nat),
{
    let b: u8 = d + 48;
    b as char
}

impl Config {
    /// The settings a fresh install starts with.
    pub fn default() -> (r: Self)
        ensures
            r@ == default_model(),
    {
        Config {
            wallpaper: owned("galaxy.jpg"),
            theme: owned("dark"),
            accent_color: owned("purple"),
            default_browser: owned("Browser"),
            default_terminal: owned("Terminal"),
            accent_r: 72,
            accent_g: 138,
            accent_b: 240,
            wallpaper_preset: 0,
        }
    }

    /// Applies one line of the settings file.
    fn apply(&mut self, line: &str)
        ensures
            final(self)@ == apply_line(old(self)@, line@),
    {
        let t = trim(line);
        let cs = chars_of(t.as_str());
        let n = cs.len();
        if n > 0 && cs[0] == '#' {
            return;
        }
        let mut e: usize = 0;
        while e < n && cs[e] != '='
            invariant
                e <= n == cs@.len(),
                forall|k: int| 0 <= k < e ==> cs@[k] != '=',
            decreases n - e,
        {
            e = e + 1;
        }
        proof {
            lemma_first_index(cs@, '=', e as int);
        }
        if e == n {
            return;
        }
        let key_raw = string_from_chars(&cs, 0, e);
        let val_raw = string_from_chars(&cs, e + 1, n);
        proof {
            assert(key_raw@ =~= cs@.take(e as int));
            assert(val_raw@ =~= cs@.skip(e + 1));
        }
        let key = trim(key_raw.as_str());
        let val_t = trim(val_raw.as_str());
        let val = trim_matches(val_t.as_str(), '"');
        let k = key.as_str();
        if str_eq(k, "theme") {
            self.theme = val;
        } else if str_eq(k, "wallpaper") {
            self.wallpaper = val;
        } else if str_eq(k, "wallpaper_preset") {
            self.wallpaper_preset = match parse_u8(val.as_str()) {
                Some(v) => v,
                None => 0,
            };
        } else if str_eq(k, "accent_color") {
            self.accent_color = val;
        } else if str_eq(k, "accent_r") {
            self.accent_r = match parse_u8(val.as_str()) {
                Some(v) => v,
                None => 72,
            };
        } else if str_eq(k, "accent_g") {
            self.accent_g = match parse_u8(val.as_str()) {
                Some(v) => v,
                None => 138,
            };
        } else if str_eq(k, "accent_b") {
            self.accent_b = match parse_u8(val.as_str()) {
                Some(v) => v,
                None => 240,
            };
        }
    }

    /// The settings a settings file holding `text` gives: the defaults,
    /// changed by each of its lines in turn.
    pub fn parse(text: &str) -> (r: Self)
        ensures
            r@ == parse_config(text@),
    {
        let cs = chars_of(text);
        let n = cs.len();
        let mut cfg = Config::default();
        let mut start: usize = 0;
        let mut i: usize = 0;
        assert(cs@.skip(0) =~= cs@);
        while i < n
            invariant
                start <= i <= n == cs@.len(),
                cs@ == text@,
                forall|k: int| start <= k < i ==> cs@[k] != '\n',
                apply_lines(cfg@, cs@.skip(start as int)) == parse_config(text@),
            decreases n - i,
        {
            if cs[i] == '\n' {
                let line = string_from_chars(&cs, start, i);
                proof {
                    let s = cs@.skip(start as int);
                    lemma_first_index(s, '\n', i - start);
                    assert(s.take(i - start) =~= line@);
                    assert(s.skip(i - start + 1) =~= cs@.skip(i + 1));
                }
                cfg.apply(line.as_str());
                start = i + 1;
            }
            i = i + 1;
        }
        let line = string_from_chars(&cs, start, n);
        proof {
            let s = cs@.skip(start as int);
            lemma_first_index(s, '\n', n - start);
            assert(s =~= line@);
        }
        cfg.apply(line.as_str());
        cfg
    }

    /// The text of the settings file that `save` writes.
    pub fn to_text(&self) -> (r: String)
        ensures
            r@ == config_text(self@),
    {
        let mut r = String::new();
        append(&mut r, "# Trimangees OS \u{2014} shell config\ntheme = \"");
        append(&mut r, self.theme.as_str());
        append(&mut r, "\"\nwallpaper = \"");
        append(&mut r, self.wallpaper.as_str());
        append(&mut r, "\"\nwallpaper_preset = ");
        append(&mut r, u8_to_string(self.wallpaper_preset).as_str());
        append(&mut r, "\naccent_color = \"");
        append(&mut r, self.accent_color.as_str());
        append(&mut r, "\"\naccent_r = ");
        append(&mut r, u8_to_string(self.accent_r).as_str());
        append(&mut r, "\naccent_g = ");
        append(&mut r, u8_to_string(self.accent_g).as_str());
        append(&mut r, "\naccent_b = ");
        append(&mut r, u8_to_string(self.accent_b).as_str());
        append(&mut r, "\n");
        r
    }
}

/// The settings of a running shell.
pub struct ConfigManager {
    config: Config,
}

impl ConfigManager {
    /// The settings the manager holds.
    pub closed spec fn settings(&self) -> ConfigModel {
        self.config@
    }

    /// A manager holding the default settings.
    pub fn new() -> (r: Self)
        ensures
            r.settings() == default_model(),
    {
        ConfigManager { config: Config::default() }
    }

    /// The settings.
    pub fn get_config(&self) -> (r: &Config)
        ensures
            r@ == self.settings(),
    {
        &self.config
    }

    /// Sets the wallpaper; the other settings stay.
    pub fn set_wallpaper(&mut self, wallpaper: &str)
        ensures
            final(self).settings() == (ConfigModel { wallpaper: wallpaper@, ..old(self).settings() }),
    {
        self.config.wallpaper = owned(wallpaper);
    }

    /// Sets the theme; the other settings stay.
    pub fn set_theme(&mut self, theme: &str)
        ensures
            final(self).settings() == (ConfigModel { theme: theme@, ..old(self).settings() }),
    {
        self.config.theme = owned(theme);
    }
}

} // verus!

verus! {

/// The lines describing the settings.
pub open spec fn settings_lines(m: ConfigModel) -> Seq<Seq<char>> {
    seq![
        "Current Settings:"@,
        "Wallpaper: "@ + m.wallpaper,
        "Theme: "@ + m.theme,
        "Accent: "@ + m.accent_color,
        "Browser: "@ + m.default_browser,
        "Terminal: "@ + m.default_terminal,
    ]
}

impl ConfigManager {
    /// The lines describing the current settings: see [`settings_lines`].
    pub fn print_settings(&self) -> (r: Vec<String>)
        ensures
            crate::text::string_views(r@) == settings_lines(self.settings()),
    {
        let c = &self.config;
        let mut r: Vec<String> = Vec::new();
        crate::text::push_line(&mut r, owned("Current Settings:"));
        crate::text::push_line(&mut r, crate::text::concat("Wallpaper: ", c.wallpaper.as_str()));
        crate::text::push_line(&mut r, crate::text::concat("Theme: ", c.theme.as_str()));
        crate::text::push_line(&mut r, crate::text::concat("Accent: ", c.accent_color.as_str()));
        crate::text::push_line(&mut r, crate::text::concat("Browser: ", c.default_browser.as_str()));
        crate::text::push_line(&mut r, crate::text::concat("Terminal: ", c.default_terminal.as_str()));
        assert(crate::text::string_views(r@) =~= settings_lines(self.settings()));
        r
    }
}

} // verus!

verus! {

/// A string whose first and last characters are not white space is its own
/// trimmed form.
proof fn lemma_trimmed_plain(s: Seq<char>)
    requires
        s.len() > 0,
        !crate::text::is_ws(s[0]),
        !crate::text::is_ws(s.last()),
    ensures
        trimmed(s) == s,
{
    assert(s.skip(0) =~= s);
    assert(s.take(s.len() as int) =~= s);
}

/// The lines of a text: a line without `\n` followed by `\n` and the rest
/// is applied before the rest.
proof fn lemma_apply_lines_cons(m: ConfigModel, a: Seq<char>, b: Seq<char>)
    requires
        forall|k: int| 0 <= k < a.len() ==> a[k] != '\n',
    ensures
        apply_lines(m, a + "\n"@ + b) == apply_lines(apply_line(m, a), b),
{
    reveal_strlit("\n");
    let s = a + "\n"@ + b;
    lemma_first_index(s, '\n', a.len() as int);
    assert(s.take(a.len() as int) =~= a);
    assert(s.skip(a.len() as int + 1) =~= b);
}

/// The value of a line `key = value`: the first `=` comes right after the
/// key and a space.
proof fn lemma_key_value(k: Seq<char>, v: Seq<char>)
    requires
        k.len() > 0,
        forall|j: int| 0 <= j < k.len() ==> k[j] != '=' && !crate::text::is_ws(#[trigger] k[j]),
    ensures
        first_index(k + " = "@ + v, '=') == k.len() as int + 1,
        trimmed((k + " = "@ + v).take(k.len() as int + 1)) == k,
        (k + " = "@ + v).skip(k.len() as int + 2) == " "@ + v,
{
    reveal_strlit(" = ");
    reveal_strlit(" ");
    let t = k + " = "@ + v;
    lemma_first_index(t, '=', k.len() as int + 1);
    let kk = t.take(k.len() as int + 1);
    assert(kk =~= k + " "@);
    lemma_span(kk, 0, 0, true);
    assert(kk.skip(0) =~= kk);
    lemma_rspan(kk, k.len() as int, k.len() as int + 1, true);
    assert(kk.take(kk.len() as int) =~= kk);
    assert(kk.take(k.len() as int) =~= k);
    assert(t.skip(k.len() as int + 2) =~= " "@ + v);
}

/// A quoted value `"v"`, its surrounding space trimmed and its quotes
/// taken off, is `v` again, when `v` neither starts nor ends with a quote.
proof fn lemma_quoted(v: Seq<char>)
    requires
        v.len() > 0 ==> v[0] != '"' && v.last() != '"',
    ensures
        trim_char(trimmed(" \""@ + v + "\""@), '"') == v,
{
    reveal_strlit(" \"");
    reveal_strlit("\"");
    let s = " \""@ + v + "\""@;
    let q = "\""@ + v + "\""@;
    lemma_span(s, 0, 1, true);
    assert(s.skip(1) =~= q);
    assert(s.skip(0) =~= s);
    assert(q.len() > 0 && q.last() == '"');
    assert(rspan(q, true) == 0);
    assert(q.take(q.len() as int) =~= q);
    assert(trimmed(s) == q);
    if v.len() == 0 {
        lemma_lead(q, '"', 0, 2);
        assert(q.skip(0) =~= q);
        assert(q.skip(2) =~= Seq::<char>::empty());
    } else {
        lemma_lead(q, '"', 0, 1);
        assert(q.skip(0) =~= q);
        let t = q.skip(1);
        assert(t =~= v + "\""@);
        lemma_trail(t, '"', v.len() as int, v.len() as int + 1);
        assert(t.take(t.len() as int) =~= t);
        assert(t.take(v.len() as int) =~= v);
    }
}

/// The digits of `n` are digits, with no leading sign, and read back as `n`.
proof fn lemma_dec_reads_back(n: nat)
    ensures
        dec(n).len() > 0,
        forall|k: int| 0 <= k < dec(n).len() ==> is_digit(#[trigger] dec(n)[k]),
        decimal(dec(n)) == n,
    decreases n,
{
    assert(digit_char(n % 10) as int == n % 10 + 48);
    if n < 10 {
        assert(dec(n).drop_last() =~= Seq::<char>::empty());
        assert(dec(n).last() == digit_char(n));
        assert(n % 10 == n);
        assert(decimal(Seq::<char>::empty()) == 0);
        assert(decimal(dec(n)) == decimal(dec(n).drop_last()) * 10 + (dec(n).last() as int - '0' as int));
    }
    if n >= 10 {
        lemma_dec_reads_back(n / 10);
        let s = dec(n);
        assert(s.drop_last() =~= dec(n / 10));
        assert(s.last() == digit_char(n % 10));
        assert(n == (n / 10) * 10 + n % 10);
        assert(decimal(s) == decimal(s.drop_last()) * 10 + (s.last() as int - '0' as int));
        assert forall|k: int| 0 <= k < s.len() implies is_digit(#[trigger] s[k]) by {
            if k < s.len() - 1 {
                assert(s[k] == dec(n / 10)[k]);
            }
        }
    }
}

/// A number line's value parses back to the number.
proof fn lemma_number_value(n: u8)
    ensures
        u8_of(trim_char(trimmed(" "@ + dec(n as nat)), '"')) == Some(n),
{
    reveal_strlit(" ");
    lemma_dec_reads_back(n as nat);
    let d = dec(n as nat);
    let s = " "@ + d;
    lemma_span(s, 0, 1, true);
    assert(s.skip(1) =~= d);
    assert(s.skip(0) =~= s);
    assert(!crate::text::is_ws(d.last())) by {
        assert(is_digit(d[d.len() - 1]));
    }
    assert(rspan(d, true) == 0);
    assert(d.take(d.len() as int) =~= d);
    assert(trimmed(s) == d);
    assert(is_digit(d[0]));
    lemma_lead(d, '"', 0, 0);
    assert(d.skip(0) =~= d);
    assert(is_digit(d.last())) by {
        assert(is_digit(d[d.len() - 1]));
    }
    assert(trail(d, '"') == 0);
    assert(trim_char(d, '"') == d);
    assert(unsigned_digits(d) == d);
}

} // verus!

verus! {

/// A line `key = rest` with a plain key and a non-empty rest that does not
/// end in white space: the line is its own trimmed form, is no comment, and
/// splits at the `=` after the key.
proof fn lemma_line_parts(k: Seq<char>, rest: Seq<char>)
    requires
        k.len() > 0,
        k[0] != '#',
        forall|j: int| 0 <= j < k.len() ==> k[j] != '=' && !crate::text::is_ws(#[trigger] k[j]),
        rest.len() > 0,
        !crate::text::is_ws(rest.last()),
    ensures
        ({
            let t = k + " = "@ + rest;
            &&& trimmed(t) == t
            &&& t.len() > 0 && t[0] != '#'
            &&& first_index(t, '=') == k.len() as int + 1
            &&& first_index(t, '=') < t.len()
            &&& trimmed(t.take(k.len() as int + 1)) == k
            &&& t.skip(k.len() as int + 2) == " "@ + rest
        }),
{
    reveal_strlit(" = ");
    let t = k + " = "@ + rest;
    assert(t[0] == k[0]);
    assert(t.last() == rest.last());
    lemma_trimmed_plain(t);
    lemma_key_value(k, rest);
}

/// A value saved in quotes can be read back: it has no line break and
/// neither starts nor ends with a quote.
pub open spec fn quotable(v: Seq<char>) -> bool {
    &&& forall|k: int| 0 <= k < v.len() ==> v[k] != '\n'
    &&& v.len() > 0 ==> v[0] != '"' && v.last() != '"'
}

/// The settings a saved file restores: the saved ones, with the browser
/// and terminal names, which are not saved, at their defaults.
pub open spec fn restored(m: ConfigModel) -> ConfigModel {
    ConfigModel {
        default_browser: default_model().default_browser,
        default_terminal: default_model().default_terminal,
        ..m
    }
}

/// A line of the saved text holds no line break.
proof fn lemma_no_newline(a: Seq<char>, v: Seq<char>, b: Seq<char>)
    requires
        forall|k: int| 0 <= k < a.len() ==> a[k] != '\n',
        forall|k: int| 0 <= k < v.len() ==> v[k] != '\n',
        forall|k: int| 0 <= k < b.len() ==> b[k] != '\n',
    ensures
        forall|k: int| 0 <= k < (a + v + b).len() ==> (a + v + b)[k] != '\n',
{
    assert forall|k: int| 0 <= k < (a + v + b).len() implies (a + v + b)[k] != '\n' by {
        if k < a.len() {
        } else if k < a.len() + v.len() {
            assert((a + v + b)[k] == v[k - a.len()]);
        } else {
            assert((a + v + b)[k] == b[k - a.len() - v.len()]);
        }
    }
}

/// A quoted line `key = "v"` as the settings file holds it.
pub open spec fn quoted_line(key: Seq<char>, v: Seq<char>) -> Seq<char> {
    key + " = "@ + ("\""@ + v + "\""@)
}

/// A number line `key = n` as the settings file holds it.
pub open spec fn number_line(key: Seq<char>, n: u8) -> Seq<char> {
    key + " = "@ + dec(n as nat)
}

/// The value of a quoted line with a plain key reads back.
proof fn lemma_quoted_line_value(k: Seq<char>, v: Seq<char>)
    requires
        k.len() > 0,
        k[0] != '#',
        forall|j: int| 0 <= j < k.len() ==> k[j] != '=' && !crate::text::is_ws(#[trigger] k[j]),
        quotable(v),
    ensures
        ({
            let t = quoted_line(k, v);
            &&& trimmed(t) == t
            &&& t.len() > 0 && t[0] != '#'
            &&& first_index(t, '=') == k.len() as int + 1
            &&& first_index(t, '=') < t.len()
            &&& trimmed(t.take(k.len() as int + 1)) == k
            &&& trim_char(trimmed(t.skip(k.len() as int + 2)), '"') == v
        }),
{
    reveal_strlit("\"");
    reveal_strlit(" \"");
    reveal_strlit(" ");
    let q = "\""@;
    assert((q + v + q).last() == '"');
    lemma_line_parts(k, q + v + q);
    assert(" "@ + (q + v + q) =~= " \""@ + v + "\""@);
    lemma_quoted(v);
}

/// The value of a number line with a plain key reads back.
proof fn lemma_number_line_value(k: Seq<char>, n: u8)
    requires
        k.len() > 0,
        k[0] != '#',
        forall|j: int| 0 <= j < k.len() ==> k[j] != '=' && !crate::text::is_ws(#[trigger] k[j]),
    ensures
        ({
            let t = number_line(k, n);
            &&& trimmed(t) == t
            &&& t.len() > 0 && t[0] != '#'
            &&& first_index(t, '=') == k.len() as int + 1
            &&& first_index(t, '=') < t.len()
            &&& trimmed(t.take(k.len() as int + 1)) == k
            &&& u8_of(trim_char(trimmed(t.skip(k.len() as int + 2)), '"')) == Some(n)
        }),
{
    lemma_dec_reads_back(n as nat);
    let d = dec(n as nat);
    assert(is_digit(d[d.len() - 1]));
    lemma_line_parts(k, d);
    lemma_number_value(n);
}

proof fn lemma_theme_line(m: ConfigModel, v: Seq<char>)
    requires
        quotable(v),
    ensures
        apply_line(m, quoted_line("theme"@, v)) == (ConfigModel { theme: v, ..m }),
{
    reveal_strlit("theme");
    lemma_quoted_line_value("theme"@, v);
}

proof fn lemma_wallpaper_line(m: ConfigModel, v: Seq<char>)
    requires
        quotable(v),
    ensures
        apply_line(m, quoted_line("wallpaper"@, v)) == (ConfigModel { wallpaper: v, ..m }),
{
    reveal_strlit("theme");
    reveal_strlit("wallpaper");
    lemma_quoted_line_value("wallpaper"@, v);
    assert("wallpaper"@ != "theme"@) by {
        assert("wallpaper"@[0] != "theme"@[0]);
    }
}

proof fn lemma_preset_line(m: ConfigModel, n: u8)
    ensures
        apply_line(m, number_line("wallpaper_preset"@, n)) == (ConfigModel { wallpaper_preset: n, ..m }),
{
    reveal_strlit("theme");
    reveal_strlit("wallpaper");
    reveal_strlit("wallpaper_preset");
    lemma_number_line_value("wallpaper_preset"@, n);
    assert("wallpaper_preset"@ != "theme"@) by {
        assert("wallpaper_preset"@[0] != "theme"@[0]);
    }
    assert("wallpaper_preset"@ != "wallpaper"@) by {
        assert("wallpaper_preset"@.len() != "wallpaper"@.len());
    }
}

proof fn lemma_accent_color_line(m: ConfigModel, v: Seq<char>)
    requires
        quotable(v),
    ensures
        apply_line(m, quoted_line("accent_color"@, v)) == (ConfigModel { accent_color: v, ..m }),
{
    reveal_strlit("theme");
    reveal_strlit("wallpaper");
    reveal_strlit("wallpaper_preset");
    reveal_strlit("accent_color");
    lemma_quoted_line_value("accent_color"@, v);
    assert("accent_color"@ != "theme"@) by {
        assert("accent_color"@[0] != "theme"@[0]);
    }
    assert("accent_color"@ != "wallpaper"@) by {
        assert("accent_color"@[0] != "wallpaper"@[0]);
    }
    assert("accent_color"@ != "wallpaper_preset"@) by {
        assert("accent_color"@[0] != "wallpaper_preset"@[0]);
    }
}

/// Distinct keys of the settings file, for the number lines of the accent.
proof fn lemma_accent_key_distinct(k: Seq<char>)
    requires
        k.len() == 8,
        k[0] == 'a',
    ensures
        k != "theme"@,
        k != "wallpaper"@,
        k != "wallpaper_preset"@,
        k != "accent_color"@,
{
    reveal_strlit("theme");
    reveal_strlit("wallpaper");
    reveal_strlit("wallpaper_preset");
    reveal_strlit("accent_color");
    assert(k.len() != "theme"@.len());
    assert(k.len() != "wallpaper"@.len());
    assert(k.len() != "wallpaper_preset"@.len());
    assert(k.len() != "accent_color"@.len());
}

proof fn lemma_accent_r_line(m: ConfigModel, n: u8)
    ensures
        apply_line(m, number_line("accent_r"@, n)) == (ConfigModel { accent_r: n, ..m }),
{
    reveal_strlit("accent_r");
    lemma_accent_key_distinct("accent_r"@);
    lemma_number_line_value("accent_r"@, n);
}

proof fn lemma_accent_g_line(m: ConfigModel, n: u8)
    ensures
        apply_line(m, number_line("accent_g"@, n)) == (ConfigModel { accent_g: n, ..m }),
{
    reveal_strlit("accent_r");
    reveal_strlit("accent_g");
    lemma_accent_key_distinct("accent_g"@);
    lemma_number_line_value("accent_g"@, n);
    assert("accent_g"@ != "accent_r"@) by {
        assert("accent_g"@[7] != "accent_r"@[7]);
    }
}

proof fn lemma_accent_b_line(m: ConfigModel, n: u8)
    ensures
        apply_line(m, number_line("accent_b"@, n)) == (ConfigModel { accent_b: n, ..m }),
{
    reveal_strlit("accent_r");
    reveal_strlit("accent_g");
    reveal_strlit("accent_b");
    lemma_accent_key_distinct("accent_b"@);
    lemma_number_line_value("accent_b"@, n);
    assert("accent_b"@ != "accent_r"@) by {
        assert("accent_b"@[7] != "accent_r"@[7]);
    }
    assert("accent_b"@ != "accent_g"@) by {
        assert("accent_b"@[7] != "accent_g"@[7]);
    }
}

/// The first line of the settings file.
pub open spec fn header_line() -> Seq<char> {
    "# Trimangees OS \u{2014} shell config"@
}

proof fn lemma_header_line(m: ConfigModel)
    ensures
        apply_line(m, header_line()) == m,
        forall|k: int| 0 <= k < header_line().len() ==> header_line()[k] != '\n',
{
    reveal_strlit("# Trimangees OS \u{2014} shell config");
    lemma_trimmed_plain(header_line());
}

/// Concatenation regrouped: the saved text's pieces, split at the line
/// breaks.
#[verifier::rlimit(100)]
#[verifier::spinoff_prover]
proof fn lemma_regroup(
    h: Seq<char>, nl: Seq<char>, eq: Seq<char>, q: Seq<char>,
    k1: Seq<char>, k2: Seq<char>, k3: Seq<char>, k4: Seq<char>, k5: Seq<char>, k6: Seq<char>, k7: Seq<char>,
    v1: Seq<char>, v2: Seq<char>, v3: Seq<char>, v4: Seq<char>, v5: Seq<char>, v6: Seq<char>, v7: Seq<char>,
)
    ensures
        (h + nl + k1 + eq + q) + v1 + (q + nl + k2 + eq + q) + v2 + (q + nl + k3 + eq) + v3 + (nl + k4 + eq + q)
            + v4 + (q + nl + k5 + eq) + v5 + (nl + k6 + eq) + v6 + (nl + k7 + eq) + v7 + nl
            == h + nl + (k1 + eq + (q + v1 + q) + nl + (k2 + eq + (q + v2 + q) + nl + (k3 + eq + v3 + nl + (k4
            + eq + (q + v4 + q) + nl + (k5 + eq + v5 + nl + (k6 + eq + v6 + nl + (k7 + eq + v7 + nl
            + Seq::<char>::empty()))))))),
{
    assert((h + nl + k1 + eq + q) + v1 + (q + nl + k2 + eq + q) + v2 + (q + nl + k3 + eq) + v3 + (nl + k4 + eq
        + q) + v4 + (q + nl + k5 + eq) + v5 + (nl + k6 + eq) + v6 + (nl + k7 + eq) + v7 + nl =~= h + nl + (k1
        + eq + (q + v1 + q) + nl + (k2 + eq + (q + v2 + q) + nl + (k3 + eq + v3 + nl + (k4 + eq + (q + v4 + q)
        + nl + (k5 + eq + v5 + nl + (k6 + eq + v6 + nl + (k7 + eq + v7 + nl + Seq::<char>::empty()))))))));
}

proof fn lemma_piece_1()
    ensures
        "# Trimangees OS \u{2014} shell config\ntheme = \""@ == header_line() + "\n"@ + "theme"@ + " = "@ + "\""@,
{
    reveal_strlit("# Trimangees OS \u{2014} shell config\ntheme = \"");
    reveal_strlit("# Trimangees OS \u{2014} shell config");
    reveal_strlit("\n");
    reveal_strlit("theme");
    reveal_strlit(" = ");
    reveal_strlit("\"");
    assert("# Trimangees OS \u{2014} shell config\ntheme = \""@ =~= header_line() + "\n"@ + "theme"@ + " = "@ + "\""@);
}

proof fn lemma_piece_2()
    ensures
        "\"\nwallpaper = \""@ == "\""@ + "\n"@ + "wallpaper"@ + " = "@ + "\""@,
{
    reveal_strlit("\"\nwallpaper = \"");
    reveal_strlit("\n");
    reveal_strlit("wallpaper");
    reveal_strlit(" = ");
    reveal_strlit("\"");
    assert("\"\nwallpaper = \""@ =~= "\""@ + "\n"@ + "wallpaper"@ + " = "@ + "\""@);
}

proof fn lemma_piece_3()
    ensures
        "\"\nwallpaper_preset = "@ == "\""@ + "\n"@ + "wallpaper_preset"@ + " = "@,
{
    reveal_strlit("\"\nwallpaper_preset = ");
    reveal_strlit("\n");
    reveal_strlit("wallpaper_preset");
    reveal_strlit(" = ");
    reveal_strlit("\"");
    assert("\"\nwallpaper_preset = "@ =~= "\""@ + "\n"@ + "wallpaper_preset"@ + " = "@);
}

proof fn lemma_piece_4()
    ensures
        "\naccent_color = \""@ == "\n"@ + "accent_color"@ + " = "@ + "\""@,
{
    reveal_strlit("\naccent_color = \"");
    reveal_strlit("\n");
    reveal_strlit("accent_color");
    reveal_strlit(" = ");
    reveal_strlit("\"");
    assert("\naccent_color = \""@ =~= "\n"@ + "accent_color"@ + " = "@ + "\""@);
}

proof fn lemma_piece_5()
    ensures
        "\"\naccent_r = "@ == "\""@ + "\n"@ + "accent_r"@ + " = "@,
{
    reveal_strlit("\"\naccent_r = ");
    reveal_strlit("\n");
    reveal_strlit("accent_r");
    reveal_strlit(" = ");
    reveal_strlit("\"");
    assert("\"\naccent_r = "@ =~= "\""@ + "\n"@ + "accent_r"@ + " = "@);
}

proof fn lemma_piece_6()
    ensures
        "\naccent_g = "@ == "\n"@ + "accent_g"@ + " = "@,
        "\naccent_b = "@ == "\n"@ + "accent_b"@ + " = "@,
{
    reveal_strlit("\naccent_g = ");
    reveal_strlit("\naccent_b = ");
    reveal_strlit("\n");
    reveal_strlit("accent_g");
    reveal_strlit("accent_b");
    reveal_strlit(" = ");
    assert("\naccent_g = "@ =~= "\n"@ + "accent_g"@ + " = "@);
    assert("\naccent_b = "@ =~= "\n"@ + "accent_b"@ + " = "@);
}

/// The saved text, line by line.
proof fn lemma_text_lines(m: ConfigModel)
    ensures
        config_text(m) == header_line() + "\n"@ + (quoted_line("theme"@, m.theme) + "\n"@ + (quoted_line(
            "wallpaper"@,
            m.wallpaper,
        ) + "\n"@ + (number_line("wallpaper_preset"@, m.wallpaper_preset) + "\n"@ + (quoted_line(
            "accent_color"@,
            m.accent_color,
        ) + "\n"@ + (number_line("accent_r"@, m.accent_r) + "\n"@ + (number_line("accent_g"@, m.accent_g)
            + "\n"@ + (number_line("accent_b"@, m.accent_b) + "\n"@ + Seq::<char>::empty()))))))),
{
    lemma_piece_1();
    lemma_piece_2();
    lemma_piece_3();
    lemma_piece_4();
    lemma_piece_5();
    lemma_piece_6();
    lemma_regroup(
        header_line(), "\n"@, " = "@, "\""@,
        "theme"@, "wallpaper"@, "wallpaper_preset"@, "accent_color"@, "accent_r"@, "accent_g"@, "accent_b"@,
        m.theme, m.wallpaper, dec(m.wallpaper_preset as nat), m.accent_color, dec(m.accent_r as nat),
        dec(m.accent_g as nat), dec(m.accent_b as nat),
    );
}

/// A key of the settings file followed by ` = ` holds no line break.
proof fn lemma_key_no_newline(k: Seq<char>, rest: Seq<char>)
    requires
        forall|j: int| 0 <= j < k.len() ==> k[j] != '\n',
        forall|j: int| 0 <= j < rest.len() ==> rest[j] != '\n',
    ensures
        forall|j: int| 0 <= j < (k + " = "@ + rest).len() ==> (k + " = "@ + rest)[j] != '\n',
{
    reveal_strlit(" = ");
    lemma_no_newline(k, " = "@, rest);
}

/// Digits hold no line break.
proof fn lemma_dec_no_newline(n: u8)
    ensures
        forall|j: int| 0 <= j < dec(n as nat).len() ==> dec(n as nat)[j] != '\n',
{
    lemma_dec_reads_back(n as nat);
    assert forall|j: int| 0 <= j < dec(n as nat).len() implies dec(n as nat)[j] != '\n' by {
        assert(is_digit(dec(n as nat)[j]));
    }
}

/// A quoted value holds no line break.
proof fn lemma_quoted_no_newline(v: Seq<char>)
    requires
        quotable(v),
    ensures
        forall|j: int| 0 <= j < ("\""@ + v + "\""@).len() ==> ("\""@ + v + "\""@)[j] != '\n',
{
    reveal_strlit("\"");
    lemma_no_newline("\""@, v, "\""@);
}

/// Saving the settings and loading the saved text gives the settings back,
/// but for the browser and terminal names, which are not saved and load as
/// their defaults, when the theme, wallpaper and accent colour names can be
/// saved in quotes.
pub proof fn lemma_save_then_load(m: ConfigModel)
    requires
        quotable(m.theme),
        quotable(m.wallpaper),
        quotable(m.accent_color),
    ensures
        parse_config(config_text(m)) == restored(m),
{
    reveal_strlit("theme");
    reveal_strlit("wallpaper");
    reveal_strlit("wallpaper_preset");
    reveal_strlit("accent_color");
    reveal_strlit("accent_r");
    reveal_strlit("accent_g");
    reveal_strlit("accent_b");
    let l1 = quoted_line("theme"@, m.theme);
    let l2 = quoted_line("wallpaper"@, m.wallpaper);
    let l3 = number_line("wallpaper_preset"@, m.wallpaper_preset);
    let l4 = quoted_line("accent_color"@, m.accent_color);
    let l5 = number_line("accent_r"@, m.accent_r);
    let l6 = number_line("accent_g"@, m.accent_g);
    let l7 = number_line("accent_b"@, m.accent_b);
    lemma_text_lines(m);
    lemma_quoted_no_newline(m.theme);
    lemma_quoted_no_newline(m.wallpaper);
    lemma_quoted_no_newline(m.accent_color);
    lemma_dec_no_newline(m.wallpaper_preset);
    lemma_dec_no_newline(m.accent_r);
    lemma_dec_no_newline(m.accent_g);
    lemma_dec_no_newline(m.accent_b);
    lemma_key_no_newline("theme"@, "\""@ + m.theme + "\""@);
    lemma_key_no_newline("wallpaper"@, "\""@ + m.wallpaper + "\""@);
    lemma_key_no_newline("wallpaper_preset"@, dec(m.wallpaper_preset as nat));
    lemma_key_no_newline("accent_color"@, "\""@ + m.accent_color + "\""@);
    lemma_key_no_newline("accent_r"@, dec(m.accent_r as nat));
    lemma_key_no_newline("accent_g"@, dec(m.accent_g as nat));
    lemma_key_no_newline("accent_b"@, dec(m.accent_b as nat));
    let m0 = default_model();
    lemma_header_line(m0);
    let m1 = ConfigModel { theme: m.theme, ..m0 };
    lemma_theme_line(m0, m.theme);
    let m2 = ConfigModel { wallpaper: m.wallpaper, ..m1 };
    lemma_wallpaper_line(m1, m.wallpaper);
    let m3 = ConfigModel { wallpaper_preset: m.wallpaper_preset, ..m2 };
    lemma_preset_line(m2, m.wallpaper_preset);
    let m4 = ConfigModel { accent_color: m.accent_color, ..m3 };
    lemma_accent_color_line(m3, m.accent_color);
    let m5 = ConfigModel { accent_r: m.accent_r, ..m4 };
    lemma_accent_r_line(m4, m.accent_r);
    let m6 = ConfigModel { accent_g: m.accent_g, ..m5 };
    lemma_accent_g_line(m5, m.accent_g);
    let m7 = ConfigModel { accent_b: m.accent_b, ..m6 };
    lemma_accent_b_line(m6, m.accent_b);
    let e = Seq::<char>::empty();
    lemma_apply_lines_cons(m6, l7, e);
    lemma_apply_lines_cons(m5, l6, l7 + "\n"@ + e);
    lemma_apply_lines_cons(m4, l5, l6 + "\n"@ + (l7 + "\n"@ + e));
    lemma_apply_lines_cons(m3, l4, l5 + "\n"@ + (l6 + "\n"@ + (l7 + "\n"@ + e)));
    lemma_apply_lines_cons(m2, l3, l4 + "\n"@ + (l5 + "\n"@ + (l6 + "\n"@ + (l7 + "\n"@ + e))));
    lemma_apply_lines_cons(m1, l2, l3 + "\n"@ + (l4 + "\n"@ + (l5 + "\n"@ + (l6 + "\n"@ + (l7 + "\n"@ + e)))));
    lemma_apply_lines_cons(m0, l1, l2 + "\n"@ + (l3 + "\n"@ + (l4 + "\n"@ + (l5 + "\n"@ + (l6 + "\n"@ + (l7
        + "\n"@ + e))))));
    lemma_apply_lines_cons(m0, header_line(), l1 + "\n"@ + (l2 + "\n"@ + (l3 + "\n"@ + (l4 + "\n"@ + (l5
        + "\n"@ + (l6 + "\n"@ + (l7 + "\n"@ + e)))))));
    assert(first_index(e, '\n') == 0);
    assert(apply_lines(m7, e) == apply_line(m7, e));
    assert(trimmed(e) =~= e);
    assert(apply_line(m7, e) == m7);
    assert(m7 == restored(m));
}

} // verus!
