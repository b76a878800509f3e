//! Text helpers: Unicode white space, trimming, splitting into words and
//! lines, comparing and building strings.
use vstd::prelude::*;

verus! {

broadcast use vstd::string::group_string_axioms;

/// Whether `c` has the Unicode `White_Space` property, which is what
/// `char::is_whitespace` tests.
pub open spec fn is_ws(c: char) -> bool {
    ||| c == ' '
    ||| ('\u{9}' <= c && c <= '\u{d}')
    ||| c == '\u{85}'
    ||| c == '\u{a0}'
    ||| c == '\u{1680}'
    ||| ('\u{2000}' <= c && c <= '\u{200a}')
    ||| c == '\u{2028}'
    ||| c == '\u{2029}'
    ||| c == '\u{202f}'
    ||| c == '\u{205f}'
    ||| c == '\u{3000}'
}

/// `char::is_whitespace`.
pub fn is_whitespace(c: char) -> (b: bool)
    ensures
        b == is_ws(c),
{
    c == ' ' || ('\u{9}' <= c && c <= '\u{d}') || c == '\u{85}' || c == '\u{a0}' || c
        == '\u{1680}' || ('\u{2000}' <= c && c <= '\u{200a}') || c == '\u{2028}' || c
        == '\u{2029}' || c == '\u{202f}' || c == '\u{205f}' || c == '\u{3000}'
}

/// The length of the longest prefix of `s` whose characters are all white
/// space (when `ws`) or all not white space (when `!ws`).
pub open spec fn span(s: Seq<char>, ws: bool) -> nat
    decreases s.len(),
{
    if s.len() == 0 || is_ws(s[0]) != ws {
        0
    } else {
        1 + span(s.drop_first(), ws)
    }
}

/// The length of the longest suffix of `s` whose characters are all white
/// space (when `ws`) or all not white space (when `!ws`).
pub open spec fn rspan(s: Seq<char>, ws: bool) -> nat
    decreases s.len(),
{
    if s.len() == 0 || is_ws(s.last()) != ws {
        0
    } else {
        1 + rspan(s.drop_last(), ws)
    }
}

/// `s` without leading and trailing white space, as `str::trim` returns it.
pub open spec fn trimmed(s: Seq<char>) -> Seq<char> {
    let t = s.skip(span(s, true) as int);
    t.take(t.len() - rspan(t, true))
}

/// The words of `s`: its maximal runs of characters that are not white
/// space, in order, as `str::split_whitespace` yields them.
pub open spec fn words(s: Seq<char>) -> Seq<Seq<char>>
    decreases s.len(),
{
    let t = s.skip(span(s, true) as int);
    if t.len() == 0 {
        Seq::empty()
    } else {
        let n = span(t, false);
        proof {
            lemma_span_bounds(s, true);
            lemma_span_bounds(t, false);
        }
        seq![t.take(n as int)] + words(t.skip(n as int))
    }
}

/// The span is a prefix of characters of the given kind, ended by the end
/// of `s` or a character of the other kind.
pub proof fn lemma_span_bounds(s: Seq<char>, ws: bool)
    ensures
        span(s, ws) <= s.len(),
        forall|k: int| 0 <= k < span(s, ws) ==> is_ws(#[trigger] s[k]) == ws,
        span(s, ws) < s.len() ==> is_ws(s[span(s, ws) as int]) != ws,
    decreases s.len(),
{
    if s.len() == 0 || is_ws(s[0]) != ws {
    } else {
        lemma_span_bounds(s.drop_first(), ws);
        assert forall|k: int| 0 <= k < span(s, ws) implies is_ws(#[trigger] s[k]) == ws by {
            if k > 0 {
                assert(s[k] == s.drop_first()[k - 1]);
            }
        }
    }
}

/// A run from `i` to `j` of characters of one kind, ended by the end of `s`
/// or a character of the other kind, has length `span`.
pub proof fn lemma_span(s: Seq<char>, i: int, j: int, ws: bool)
    requires
        0 <= i <= j <= s.len(),
        forall|k: int| i <= k < j ==> is_ws(#[trigger] s[k]) == ws,
        j == s.len() || is_ws(s[j]) != ws,
    ensures
        span(s.skip(i), ws) == j - i,
    decreases j - i,
{
    if i == j {
    } else {
        lemma_span(s, i + 1, j, ws);
        assert(s.skip(i).drop_first() =~= s.skip(i + 1));
    }
}

/// A run from `i` to `j` of characters of one kind, preceded by the start of
/// `s` or a character of the other kind, is the `rspan` of `s.take(j)`.
pub proof fn lemma_rspan(s: Seq<char>, i: int, j: int, ws: bool)
    requires
        0 <= i <= j <= s.len(),
        forall|k: int| i <= k < j ==> is_ws(#[trigger] s[k]) == ws,
        i == 0 || is_ws(s[i - 1]) != ws,
    ensures
        rspan(s.take(j), ws) == j - i,
    decreases j - i,
{
    if i == j {
    } else {
        lemma_rspan(s, i, j - 1, ws);
        assert(s.take(j).drop_last() =~= s.take(j - 1));
    }
}

/// The characters of a string, in order.
pub fn chars_of(s: &str) -> (r: Vec<char>)
    ensures
        r@ == s@,
{
    let mut r: Vec<char> = Vec::new();
    for c in it: s.chars()
        invariant
            r@ == it.seq().take(it.index() as int),
            it.seq() == s@,
    {
        r.push(c);
    }
    r
}

/// The string made of the characters `cs[from..to]`.
pub fn string_from_chars(cs: &Vec<char>, from: usize, to: usize) -> (r: String)
    requires
        from <= to <= cs@.len(),
    ensures
        r@ == cs@.subrange(from as int, to as int),
{
    let mut r = String::new();
    let mut k = from;
    while k < to
        invariant
            from <= k <= to <= cs@.len(),
            r@ == cs@.subrange(from as int, k as int),
        decreases to - k,
    {
        push_char(&mut r, cs[k]);
        assert(r@ =~= cs@.subrange(from as int, k + 1));
        k = k + 1;
    }
    r
}

/// `String::push`: appends one character.
#[verifier::external_body]
pub fn push_char(s: &mut String, c: char)
    ensures
        final(s)@ == old(s)@.push(c),
{
    s.push(c);
}

/// A string with the characters of `s`.
pub fn owned(s: &str) -> (r: String)
    ensures
        r@ == s@,
{
    s.to_owned()
}

/// `s` without leading and trailing white space, as `str::trim` returns it.
pub fn trim(s: &str) -> (r: String)
    ensures
        r@ == trimmed(s@),
{
    let cs = chars_of(s);
    let n = cs.len();
    let mut a: usize = 0;
    while a < n && is_whitespace(cs[a])
        invariant
            a <= n == cs@.len(),
            forall|k: int| 0 <= k < a ==> is_ws(#[trigger] cs@[k]),
        decreases n - a,
    {
        a = a + 1;
    }
    proof {
        lemma_span(cs@, 0, a as int, true);
        assert(cs@.skip(0) =~= cs@);
    }
    let mut b: usize = n;
    while b > a && is_whitespace(cs[b - 1])
        invariant
            a <= b <= n == cs@.len(),
            forall|k: int| b <= k < n ==> is_ws(#[trigger] cs@[k]),
        decreases b - a,
    {
        b = b - 1;
    }
    proof {
        let t = cs@.skip(a as int);
        assert(t.take(t.len() as int) =~= t);
        lemma_rspan(t, b - a, n - a, true);
        assert(t.take(b - a) =~= cs@.subrange(a as int, b as int));
    }
    string_from_chars(&cs, a, b)
}

/// The words of `s`, as `str::split_whitespace` yields them.
pub fn split_words(s: &str) -> (r: Vec<String>)
    ensures
        r@.map_values(|w: String| w@) == words(s@),
{
    let cs = chars_of(s);
    let n = cs.len();
    let mut r: Vec<String> = Vec::new();
    let mut i: usize = 0;
    assert(cs@.skip(0) =~= cs@);
    while i < n
        invariant
            i <= n == cs@.len(),
            cs@ == s@,
            r@.map_values(|w: String| w@) + words(cs@.skip(i as int)) == words(s@),
        decreases n - i,
    {
        let ghost rest = cs@.skip(i as int);
        let mut j = i;
        while j < n && is_whitespace(cs[j])
            invariant
                i <= j <= n == cs@.len(),
                forall|k: int| i <= k < j ==> is_ws(#[trigger] cs@[k]),
            decreases n - j,
        {
            j = j + 1;
        }
        proof {
            lemma_span(cs@, i as int, j as int, true);
            assert(rest.skip(j - i) =~= cs@.skip(j as int));
        }
        if j == n {
            proof {
                assert(cs@.skip(j as int).len() == 0);
                assert(words(rest) =~= Seq::<Seq<char>>::empty());
                assert(r@.map_values(|w: String| w@) + words(cs@.skip(n as int)) =~= r@.map_values(
                    |w: String| w@,
                ));
            }
            i = n;
        } else {
            let mut k = j;
            while k < n && !is_whitespace(cs[k])
                invariant
                    j <= k <= n == cs@.len(),
                    forall|m: int| j <= m < k ==> !is_ws(#[trigger] cs@[m]),
                decreases n - k,
            {
                k = k + 1;
            }
            proof {
                lemma_span(cs@, j as int, k as int, false);
                let t = cs@.skip(j as int);
                assert(t.take(k - j) =~= cs@.subrange(j as int, k as int));
                assert(t.skip(k - j) =~= cs@.skip(k as int));
                assert(words(rest) == seq![cs@.subrange(j as int, k as int)] + words(
                    cs@.skip(k as int),
                ));
            }
            let w = string_from_chars(&cs, j, k);
            let ghost before = r@;
            r.push(w);
            proof {
                assert(r@.map_values(|w: String| w@) =~= before.map_values(|w: String| w@).push(
                    cs@.subrange(j as int, k as int),
                ));
                assert(r@.map_values(|w: String| w@) + words(cs@.skip(k as int)) =~= before.map_values(
                    |w: String| w@,
                ) + (seq![cs@.subrange(j as int, k as int)] + words(cs@.skip(k as int))));
            }
            i = k;
        }
    }
    proof {
        assert(cs@.skip(n as int).len() == 0);
        assert(r@.map_values(|w: String| w@) + words(cs@.skip(n as int)) =~= r@.map_values(
            |w: String| w@,
        ));
    }
    r
}

} // verus!

verus! {

/// Two strings have the same characters.
pub fn str_eq(a: &str, b: &str) -> (r: bool)
    ensures
        r == (a@ == b@),
{
    let ca = chars_of(a);
    let cb = chars_of(b);
    if ca.len() != cb.len() {
        return false;
    }
    let mut i: usize = 0;
    while i < ca.len()
        invariant
            ca@ == a@,
            cb@ == b@,
            ca@.len() == cb@.len(),
            i <= ca@.len(),
            forall|k: int| 0 <= k < i ==> ca@[k] == cb@[k],
        decreases ca@.len() - i,
    {
        if ca[i] != cb[i] {
            return false;
        }
        i = i + 1;
    }
    assert(ca@ =~= cb@);
    true
}

/// `char::to_ascii_lowercase`: maps `A`..`Z` to `a`..`z`, leaves the rest.
pub open spec fn ascii_lower(c: char) -> char {
    if 'A' <= c && c <= 'Z' { ((c as u32) + 32) as char } else { c }
}

/// `char::to_ascii_lowercase`.
pub fn to_ascii_lower(c: char) -> (r: char)
    ensures
        r == ascii_lower(c),
{
    if 'A' <= c && c <= 'Z' {
        let v: u32 = (c as u32) + 32;
        assert(0x61 <= v <= 0x7a);
        proof {
            assert(v < 0xD800);
        }
        let r = char_from_ascii(v);
        r
    } else {
        c
    }
}

/// The character with an ASCII code point.
fn char_from_ascii(v: u32) -> (r: char)
    requires
        v < 128,
    ensures
        r == v as char,
{
    let b: u8 = v as u8;
    b as char
}

/// Two strings are equal once ASCII letters are folded to lower case, as
/// `str::eq_ignore_ascii_case` decides.
pub open spec fn eq_ignore_ascii_case(a: Seq<char>, b: Seq<char>) -> bool {
    a.len() == b.len() && forall|k: int| 0 <= k < a.len() ==> ascii_lower(a[k]) == ascii_lower(b[k])
}

/// `str::eq_ignore_ascii_case`.
pub fn str_eq_ignore_ascii_case(a: &str, b: &str) -> (r: bool)
    ensures
        r == eq_ignore_ascii_case(a@, b@),
{
    let ca = chars_of(a);
    let cb = chars_of(b);
    if ca.len() != cb.len() {
        return false;
    }
    let mut i: usize = 0;
    while i < ca.len()
        invariant
            ca@ == a@,
            cb@ == b@,
            ca@.len() == cb@.len(),
            i <= ca@.len(),
            forall|k: int| 0 <= k < i ==> ascii_lower(ca@[k]) == ascii_lower(cb@[k]),
        decreases ca@.len() - i,
    {
        if to_ascii_lower(ca[i]) != to_ascii_lower(cb[i]) {
            return false;
        }
        i = i + 1;
    }
    true
}

} // verus!

verus! {

/// `a <= b` in the order `String` is sorted by: lexicographic by code point,
/// a proper prefix before the longer string.
pub open spec fn chars_le(a: Seq<char>, b: Seq<char>) -> bool
    decreases a.len(),
{
    if a.len() == 0 {
        true
    } else if b.len() == 0 {
        false
    } else if a[0] != b[0] {
        (a[0] as u32) < (b[0] as u32)
    } else {
        chars_le(a.drop_first(), b.drop_first())
    }
}

/// A character's code point read as a `u32` is the code point.
proof fn lemma_char_u32(c: char)
    ensures
        (c as u32) as int == c as int,
{
}

/// Any two character sequences are ordered one way or the other.
pub proof fn lemma_chars_le_total(a: Seq<char>, b: Seq<char>)
    ensures
        chars_le(a, b) || chars_le(b, a),
    decreases a.len(),
{
    if a.len() > 0 && b.len() > 0 {
        if a[0] == b[0] {
            lemma_chars_le_total(a.drop_first(), b.drop_first());
        } else {
            assert((a[0] as int) != (b[0] as int));
            lemma_char_u32(a[0]);
            lemma_char_u32(b[0]);
        }
    }
}

/// The order of [`chars_le`] is transitive.
pub proof fn lemma_chars_le_trans(a: Seq<char>, b: Seq<char>, c: Seq<char>)
    requires
        chars_le(a, b),
        chars_le(b, c),
    ensures
        chars_le(a, c),
    decreases a.len(),
{
    if a.len() > 0 && b.len() > 0 && c.len() > 0 && a[0] == b[0] && b[0] == c[0] {
        lemma_chars_le_trans(a.drop_first(), b.drop_first(), c.drop_first());
    }
}

/// Compares two character sequences in the order of [`chars_le`].
pub fn chars_vec_le(a: &Vec<char>, b: &Vec<char>) -> (r: bool)
    ensures
        r == chars_le(a@, b@),
{
    let mut i: usize = 0;
    assert(a@.skip(0) =~= a@);
    assert(b@.skip(0) =~= b@);
    while i < a.len() && i < b.len() && a[i] == b[i]
        invariant
            i <= a@.len(),
            i <= b@.len(),
            forall|k: int| 0 <= k < i ==> a@[k] == b@[k],
            chars_le(a@, b@) == chars_le(a@.skip(i as int), b@.skip(i as int)),
        decreases a@.len() - i,
    {
        proof {
            assert(a@.skip(i as int).drop_first() =~= a@.skip(i + 1));
            assert(b@.skip(i as int).drop_first() =~= b@.skip(i + 1));
        }
        i = i + 1;
    }
    if i == a.len() {
        true
    } else if i == b.len() {
        false
    } else {
        (a[i] as u32) < (b[i] as u32)
    }
}

/// `a <= b` for two strings, in the order `String`'s `Ord` sorts them.
pub fn str_le(a: &str, b: &str) -> (r: bool)
    ensures
        r == chars_le(a@, b@),
{
    let ca = chars_of(a);
    let cb = chars_of(b);
    chars_vec_le(&ca, &cb)
}

/// The lower-case form of a string, as `str::to_lowercase` computes it from
/// the Unicode case tables.
pub uninterp spec fn lowercased(s: Seq<char>) -> Seq<char>;

/// `str::to_lowercase`: the result is the string's Unicode lower-case form,
/// [`lowercased`] of its characters; which characters that maps to is the
/// Unicode case tables' business and is not stated here.
#[verifier::external_body]
pub fn to_lowercase(s: &str) -> (r: String)
    ensures
        r@ == lowercased(s@),
{
    s.to_lowercase()
}

/// The parent of a path, as `std::path::Path::parent` computes it from the
/// path's components.
pub uninterp spec fn path_parent(p: Seq<char>) -> Option<Seq<char>>;

/// `std::path::Path::parent` on a path given as a string: `None` for a root
/// or an empty path, otherwise the path without its last component; which
/// of the two, and what the parent is, is [`path_parent`] of the path.
#[verifier::external_body]
pub fn parent_of_path(p: &str) -> (r: Option<String>)
    ensures
        r is Some <==> path_parent(p@) is Some,
        r matches Some(q) ==> q@ == path_parent(p@)->0,
{
    match std::path::Path::new(p).parent() {
        Some(q) => Some(q.to_string_lossy().into_owned()),
        None => None,
    }
}

} // verus!

verus! {

/// Appends the characters of `t` to `s`, as `String::push_str` does.
pub fn append(s: &mut String, t: &str)
    ensures
        final(s)@ == old(s)@ + t@,
{
    let cs = chars_of(t);
    let mut k: usize = 0;
    while k < cs.len()
        invariant
            k <= cs@.len(),
            cs@ == t@,
            s@ == old(s)@ + cs@.take(k as int),
        decreases cs@.len() - k,
    {
        push_char(s, cs[k]);
        assert(old(s)@ + cs@.take(k + 1) =~= (old(s)@ + cs@.take(k as int)).push(cs@[k as int]));
        k = k + 1;
    }
    assert(cs@.take(k as int) =~= cs@);
}

/// The index of the first `c` in `s`, or the length of `s` when there is
/// none.
pub open spec fn first_index(s: Seq<char>, c: char) -> int
    decreases s.len(),
{
    if s.len() == 0 {
        0
    } else if s[0] == c {
        0
    } else {
        1 + first_index(s.drop_first(), c)
    }
}

/// `first_index` is the position of the first `c`.
pub proof fn lemma_first_index(s: Seq<char>, c: char, j: int)
    requires
        0 <= j <= s.len(),
        forall|k: int| 0 <= k < j ==> s[k] != c,
        j == s.len() || s[j] == c,
    ensures
        first_index(s, c) == j,
    decreases j,
{
    if j > 0 {
        lemma_first_index(s.drop_first(), c, j - 1);
    }
}

/// `first_index` lies within `s`, and no `c` comes before it.
pub proof fn lemma_first_index_bounds(s: Seq<char>, c: char)
    ensures
        0 <= first_index(s, c) <= s.len(),
        first_index(s, c) < s.len() ==> s[first_index(s, c)] == c,
        forall|k: int| 0 <= k < first_index(s, c) ==> s[k] != c,
    decreases s.len(),
{
    if s.len() > 0 && s[0] != c {
        lemma_first_index_bounds(s.drop_first(), c);
        assert forall|k: int| 0 <= k < first_index(s, c) implies s[k] != c by {
            if k > 0 {
                assert(s[k] == s.drop_first()[k - 1]);
            }
        }
    }
}

} // verus!

verus! {

/// The decimal digits of `n`, without leading zeros.
pub open spec fn decimal_digits(n: nat) -> Seq<char>
    decreases n,
{
    if n < 10 {
        seq![((n + '0' as nat) as char)]
    } else {
        decimal_digits(n / 10).push(((n % 10) + '0' as nat) as char)
    }
}

/// How `{}` prints an integer: a minus sign for a negative one, then the
/// digits of its magnitude.
pub open spec fn int_text(v: int) -> Seq<char> {
    if v < 0 {
        seq!['-'] + decimal_digits((-v) as nat)
    } else {
        decimal_digits(v as nat)
    }
}

/// The decimal digits of `n`.
pub fn u64_to_string(n: u64) -> (r: String)
    ensures
        r@ == decimal_digits(n as nat),
{
    let mut digits: Vec<char> = Vec::new();
    let mut m: u64 = n;
    // digits holds the low digits of `n`, last digit first
    loop
        invariant_except_break
            m <= n,
            decimal_digits(n as nat) == decimal_digits(m as nat) + digits@.reverse(),
        ensures
            decimal_digits(n as nat) == digits@.reverse(),
        decreases m,
    {
        let d: u64 = m % 10;
        let c = digit_char(d);
        digits.push(c);
        proof {
            reveal_with_fuel(decimal_digits, 2);
            assert(digits@.reverse() =~= seq![c] + digits@.drop_last().reverse());
        }
        if m < 10 {
            proof {
                assert(decimal_digits(m as nat) =~= seq![c]);
                assert(decimal_digits(n as nat) =~= digits@.reverse());
            }
            break;
        }
        proof {
            assert(decimal_digits(m as nat) == decimal_digits((m / 10) as nat).push(c));
            assert(decimal_digits((m / 10) as nat).push(c) + digits@.drop_last().reverse()
                =~= decimal_digits((m / 10) as nat) + (seq![c] + digits@.drop_last().reverse()));
        }
        m = m / 10;
    }
    let mut r = String::new();
    let mut k = digits.len();
    while k > 0
        invariant
            k <= digits@.len(),
            r@ == digits@.skip(k as int).reverse(),
        decreases k,
    {
        push_char(&mut r, digits[k - 1]);
        proof {
            assert(digits@.skip(k - 1).reverse() =~= digits@.skip(k as int).reverse().push(digits@[k - 1]));
        }
        k = k - 1;
    }
    assert(digits@.skip(0) =~= digits@);
    assert(r@ =~= decimal_digits(n as nat));
    r
}

/// The character of a digit below 10.
fn digit_char(d: u64) -> (c: char)
    requires
        d < 10,
    ensures
        c == ((d + '0' as nat) as char),
{
    let b: u8 = (d as u8) + 48;
    b as char
}

/// `{}` of an `i32`.
pub fn i32_to_string(v: i32) -> (r: String)
    ensures
        r@ == int_text(v as int),
{
    if v < 0 {
        let mag: u64 = (-(v as i64)) as u64;
        let digits = u64_to_string(mag);
        let mut r = String::new();
        push_char(&mut r, '-');
        append(&mut r, digits.as_str());
        r
    } else {
        u64_to_string(v as u64)
    }
}

} // verus!

verus! {

/// A line ended by `\n` loses one `\r` before it.
pub open spec fn strip_cr(p: Seq<char>) -> Seq<char> {
    if p.len() > 0 && p.last() == '\r' {
        p.drop_last()
    } else {
        p
    }
}

/// The lines of `s` as `str::lines` yields them: the pieces between `\n`
/// characters, a line ended by `\n` losing one `\r` before it, and no
/// empty line after a final `\n`.
pub open spec fn text_lines(s: Seq<char>) -> Seq<Seq<char>>
    decreases s.len(),
{
    if s.len() == 0 {
        Seq::empty()
    } else {
        let e = first_index(s, '\n');
        if e >= s.len() {
            seq![s]
        } else {
            proof {
                lemma_first_index_bounds(s, '\n');
            }
            seq![strip_cr(s.take(e))] + text_lines(s.skip(e + 1))
        }
    }
}

/// The lines of `s`, as `str::lines` yields them.
pub fn lines_of(s: &str) -> (r: Vec<String>)
    ensures
        r@.map_values(|l: String| l@) == text_lines(s@),
{
    let cs = chars_of(s);
    let n = cs.len();
    let mut r: Vec<String> = Vec::new();
    let mut start: usize = 0;
    let mut i: usize = 0;
    assert(cs@.skip(0) =~= cs@);
    while i < n
        invariant
            start <= i <= n == cs@.len(),
            cs@ == s@,
            forall|k: int| start <= k < i ==> cs@[k] != '\n',
            r@.map_values(|l: String| l@) + text_lines(cs@.skip(start as int)) == text_lines(s@),
        decreases n - i,
    {
        if cs[i] == '\n' {
            let ghost rest = cs@.skip(start as int);
            proof {
                lemma_first_index(rest, '\n', i - start);
                assert(rest.take(i - start) =~= cs@.subrange(start as int, i as int));
                assert(rest.skip(i - start + 1) =~= cs@.skip(i + 1));
            }
            let end = if i > start && cs[i - 1] == '\r' { i - 1 } else { i };
            let line = string_from_chars(&cs, start, end);
            proof {
                assert(line@ =~= strip_cr(rest.take(i - start)));
            }
            let ghost before = r@;
            r.push(line);
            proof {
                assert(r@.map_values(|l: String| l@) =~= before.map_values(|l: String| l@).push(line@));
                assert(text_lines(rest) == seq![line@] + text_lines(cs@.skip(i + 1)));
                assert(r@.map_values(|l: String| l@) + text_lines(cs@.skip(i + 1)) =~= before.map_values(
                    |l: String| l@,
                ) + text_lines(rest));
            }
            start = i + 1;
        }
        i = i + 1;
    }
    if start < n {
        let ghost rest = cs@.skip(start as int);
        proof {
            lemma_first_index(rest, '\n', n - start);
            assert(rest =~= cs@.subrange(start as int, n as int));
        }
        let line = string_from_chars(&cs, start, n);
        let ghost before = r@;
        r.push(line);
        proof {
            assert(r@.map_values(|l: String| l@) =~= before.map_values(|l: String| l@).push(line@));
            assert(text_lines(rest) == seq![line@]);
        }
    } else {
        proof {
            assert(cs@.skip(start as int).len() == 0);
        }
    }
    proof {
        assert(cs@.skip(n as int).len() == 0);
    }
    r
}

} // verus!

verus! {

/// Whether `s` has no character.
pub fn is_empty_str(s: &str) -> (r: bool)
    ensures
        r == (s@.len() == 0),
{
    chars_of(s).len() == 0
}

} // verus!

verus! {

/// `a` followed by `b`.
pub fn concat(a: &str, b: &str) -> (r: String)
    ensures
        r@ == a@ + b@,
{
    let mut r = owned(a);
    append(&mut r, b);
    r
}

/// The plain values of a list of strings.
pub open spec fn string_views(v: Seq<String>) -> Seq<Seq<char>> {
    v.map_values(|s: String| s@)
}

/// Appends `s` to the lines `out`.
pub fn push_line(out: &mut Vec<String>, s: String)
    ensures
        string_views(final(out)@) == string_views(old(out)@).push(s@),
{
    out.push(s);
    assert(string_views(out@) =~= string_views(old(out)@).push(s@));
}

/// Appends the lines `more` to the lines `out`.
pub fn push_all(out: &mut Vec<String>, more: Vec<String>)
    ensures
        string_views(final(out)@) == string_views(old(out)@) + string_views(more@),
{
    let mut more = more;
    let ghost m = string_views(more@);
    out.append(&mut more);
    assert(string_views(out@) =~= string_views(old(out)@) + m);
}

} // verus!

verus! {

/// A header line followed by the strings of `items`.
pub fn header_and_lines(header: &str, items: &Vec<String>) -> (r: Vec<String>)
    ensures
        string_views(r@) == seq![header@] + string_views(items@),
{
    let mut r: Vec<String> = Vec::new();
    push_line(&mut r, owned(header));
    let mut k: usize = 0;
    while k < items.len()
        invariant
            k <= items@.len(),
            string_views(r@) == seq![header@] + string_views(items@.take(k as int)),
        decreases items@.len() - k,
    {
        push_line(&mut r, items[k].clone());
        assert(string_views(items@.take(k + 1)) =~= string_views(items@.take(k as int)).push(items@[k as int]@));
        k = k + 1;
    }
    assert(items@.take(k as int) =~= items@);
    r
}

} // verus!

verus! {

/// Every word of `s` is non-empty and holds no white space.
pub proof fn lemma_words_are_words(s: Seq<char>)
    ensures
        forall|k: int| 0 <= k < words(s).len() ==> #[trigger] words(s)[k].len() > 0,
        forall|k: int, m: int| 0 <= k < words(s).len() && 0 <= m < words(s)[k].len() ==> !is_ws(#[trigger] words(s)[k][m]),
    decreases s.len(),
{
    let t = s.skip(span(s, true) as int);
    lemma_span_bounds(s, true);
    if t.len() > 0 {
        let n = span(t, false);
        lemma_span_bounds(t, false);
        lemma_words_are_words(t.skip(n as int));
        let w = t.take(n as int);
        assert(words(s) == seq![w] + words(t.skip(n as int)));
        assert(n > 0) by {
            assert(span(s, true) < s.len());
            assert(!is_ws(s[span(s, true) as int]));
            assert(t[0] == s[span(s, true) as int]);
        }
        assert forall|k: int, m: int| 0 <= k < words(s).len() && 0 <= m < words(s)[k].len() implies !is_ws(#[trigger] words(s)[k][m]) by {
            if k == 0 {
                assert(words(s)[0][m] == t[m]);
            } else {
                assert(words(s)[k] == words(t.skip(n as int))[k - 1]);
            }
        }
        assert forall|k: int| 0 <= k < words(s).len() implies #[trigger] words(s)[k].len() > 0 by {
            if k > 0 {
                assert(words(s)[k] == words(t.skip(n as int))[k - 1]);
            }
        }
    }
}

} // verus!
