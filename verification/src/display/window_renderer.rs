//! The parts of the window renderer that need no font: rounded-corner masks,
//! the colours and type names of files, and terminal colours.
use vstd::prelude::*;
use crate::explorer_state::FileEntry;
use crate::text::{str_eq, first_index, lemma_first_index, lemma_first_index_bounds, string_from_chars};
use crate::config::{u8_of, parse_u8_in};
use vstd::string::StringSliceAdditionalSpecFns;

verus! {

/// Draws windows; the drawing itself needs the font and lives with the
/// display server.
pub struct WindowRenderer;

/// Corner of a rounded rectangle: a point `a` pixels from one side and `b`
/// from the other is kept unless it lies in the `r` x `r` corner square and
/// outside the quarter circle of radius `r`.
pub open spec fn corner_ok(a: int, b: int, r: int) -> bool {
    !(a < r && b < r) || (r - a) * (r - a) + (r - b) * (r - b) <= r * r
}

/// Testing a corner stays within `usize`.
pub open spec fn corner_fits(a: int, b: int, r: int) -> bool {
    !(a < r && b < r) || ((r - a) * (r - a) + (r - b) * (r - b) <= usize::MAX && r * r
        <= usize::MAX)
}

/// The colour of a file's icon, by kind.
pub open spec fn icon_color_of(is_dir: bool, ext: Seq<char>) -> (u8, u8, u8) {
    if is_dir {
        (240, 180, 40)
    } else if ext == "rs"@ {
        (220, 100, 60)
    } else if ext == "py"@ {
        (60, 150, 255)
    } else if ext == "js"@ || ext == "ts"@ {
        (240, 200, 50)
    } else if ext == "html"@ || ext == "htm"@ {
        (220, 80, 40)
    } else if ext == "css"@ {
        (60, 120, 240)
    } else if ext == "json"@ || ext == "toml"@ || ext == "yaml"@ || ext == "yml"@ {
        (160, 200, 80)
    } else if ext == "txt"@ || ext == "md"@ {
        (160, 165, 200)
    } else if ext == "png"@ || ext == "jpg"@ || ext == "jpeg"@ || ext == "gif"@ || ext == "svg"@ {
        (180, 80, 220)
    } else if ext == "mp4"@ || ext == "mkv"@ || ext == "avi"@ {
        (80, 180, 220)
    } else if ext == "mp3"@ || ext == "flac"@ || ext == "wav"@ {
        (60, 200, 160)
    } else if ext == "pdf"@ {
        (220, 60, 60)
    } else if ext == "zip"@ || ext == "tar"@ || ext == "gz"@ || ext == "7z"@ {
        (180, 140, 60)
    } else {
        (100, 105, 145)
    }
}

/// The type name shown for a file extension.
pub open spec fn type_name_of(ext: Seq<char>) -> Seq<char> {
    if ext == "rs"@ {
        "Rust"@
    } else if ext == "py"@ {
        "Python"@
    } else if ext == "js"@ {
        "JavaScript"@
    } else if ext == "ts"@ {
        "TypeScript"@
    } else if ext == "html"@ || ext == "htm"@ {
        "HTML"@
    } else if ext == "css"@ {
        "CSS"@
    } else if ext == "json"@ {
        "JSON"@
    } else if ext == "toml"@ {
        "TOML"@
    } else if ext == "txt"@ {
        "Text"@
    } else if ext == "md"@ {
        "Markdown"@
    } else if ext == "png"@ {
        "PNG"@
    } else if ext == "jpg"@ || ext == "jpeg"@ {
        "JPEG"@
    } else if ext == "gif"@ {
        "GIF"@
    } else if ext == "svg"@ {
        "SVG"@
    } else if ext == "mp4"@ {
        "Video"@
    } else if ext == "mp3"@ {
        "Audio"@
    } else if ext == "pdf"@ {
        "PDF"@
    } else if ext == "zip"@ {
        "ZIP"@
    } else if ext == "tar"@ {
        "TAR"@
    } else if ext == "gz"@ {
        "GZip"@
    } else if ext == ""@ {
        ""@
    } else {
        "File"@
    }
}

/// The colour of entry `n` of the 256-colour terminal palette: sixteen
/// named colours, a 6 x 6 x 6 colour cube, and a grey ramp.
pub open spec fn palette_256(n: u8) -> Seq<u8> {
    if n < 16 {
        seq![
            seq![12u8, 12u8, 12u8],
            seq![197u8, 15u8, 31u8],
            seq![19u8, 161u8, 14u8],
            seq![193u8, 156u8, 0u8],
            seq![0u8, 55u8, 218u8],
            seq![136u8, 23u8, 152u8],
            seq![58u8, 150u8, 221u8],
            seq![204u8, 204u8, 204u8],
            seq![118u8, 118u8, 118u8],
            seq![231u8, 72u8, 86u8],
            seq![22u8, 198u8, 12u8],
            seq![249u8, 241u8, 165u8],
            seq![59u8, 120u8, 255u8],
            seq![180u8, 0u8, 158u8],
            seq![97u8, 214u8, 214u8],
            seq![242u8, 242u8, 242u8],
        ][n as int]
    } else if n <= 231 {
        let idx = n - 16;
        seq![(idx / 36 * 51) as u8, (idx / 6 % 6 * 51) as u8, (idx % 6 * 51) as u8]
    } else {
        let v = (8 + (n - 232) * 10) as u8;
        seq![v, v, v]
    }
}

impl WindowRenderer {
    /// Whether a pixel `lx`, `ly`, `rx`, `ry` pixels from the left, top,
    /// right and bottom sides lies inside a rectangle whose corners are
    /// rounded with radius `r`.
    pub fn rr(lx: usize, ly: usize, rx: usize, ry: usize, r: usize) -> (b: bool)
        requires
            corner_fits(lx as int, ly as int, r as int),
            corner_ok(lx as int, ly as int, r as int) ==> corner_fits(rx as int, ly as int, r as int),
            corner_ok(lx as int, ly as int, r as int) && corner_ok(rx as int, ly as int, r as int)
                ==> corner_fits(lx as int, ry as int, r as int),
            corner_ok(lx as int, ly as int, r as int) && corner_ok(rx as int, ly as int, r as int)
                && corner_ok(lx as int, ry as int, r as int) ==> corner_fits(
                rx as int,
                ry as int,
                r as int,
            ),
        ensures
            b == (corner_ok(lx as int, ly as int, r as int) && corner_ok(rx as int, ly as int, r as int)
                && corner_ok(lx as int, ry as int, r as int) && corner_ok(
                rx as int,
                ry as int,
                r as int,
            )),
    {
        if !corner_test(lx, ly, r) {
            return false;
        }
        if !corner_test(rx, ly, r) {
            return false;
        }
        if !corner_test(lx, ry, r) {
            return false;
        }
        if !corner_test(rx, ry, r) {
            return false;
        }
        true
    }

    /// The colour of an entry's icon in the file browser.
    pub fn file_icon_color(entry: &FileEntry) -> (c: (u8, u8, u8))
        ensures
            c == icon_color_of(entry.is_dir, entry.ext@),
    {
        if entry.is_dir {
            return (240, 180, 40);
        }
        let e = entry.ext.as_str();
        if str_eq(e, "rs") {
            (220, 100, 60)
        } else if str_eq(e, "py") {
            (60, 150, 255)
        } else if str_eq(e, "js") || str_eq(e, "ts") {
            (240, 200, 50)
        } else if str_eq(e, "html") || str_eq(e, "htm") {
            (220, 80, 40)
        } else if str_eq(e, "css") {
            (60, 120, 240)
        } else if str_eq(e, "json") || str_eq(e, "toml") || str_eq(e, "yaml") || str_eq(e, "yml") {
            (160, 200, 80)
        } else if str_eq(e, "txt") || str_eq(e, "md") {
            (160, 165, 200)
        } else if str_eq(e, "png") || str_eq(e, "jpg") || str_eq(e, "jpeg") || str_eq(e, "gif")
            || str_eq(e, "svg") {
            (180, 80, 220)
        } else if str_eq(e, "mp4") || str_eq(e, "mkv") || str_eq(e, "avi") {
            (80, 180, 220)
        } else if str_eq(e, "mp3") || str_eq(e, "flac") || str_eq(e, "wav") {
            (60, 200, 160)
        } else if str_eq(e, "pdf") {
            (220, 60, 60)
        } else if str_eq(e, "zip") || str_eq(e, "tar") || str_eq(e, "gz") || str_eq(e, "7z") {
            (180, 140, 60)
        } else {
            (100, 105, 145)
        }
    }
}

/// One corner's test for [`WindowRenderer::rr`].
fn corner_test(a: usize, b: usize, r: usize) -> (ok: bool)
    requires
        corner_fits(a as int, b as int, r as int),
    ensures
        ok == corner_ok(a as int, b as int, r as int),
{
    if a < r && b < r {
        let dx = r - a;
        let dy = r - b;
        proof {
            assert(0 <= dx * dx && 0 <= dy * dy) by (nonlinear_arith);
        }
        if dx * dx + dy * dy > r * r {
            return false;
        }
    }
    true
}

/// The type name shown for a file extension: the language or format, empty
/// for no extension, "File" for an unknown one.
pub fn ext_type(ext: &str) -> (r: &'static str)
    ensures
        r@ == type_name_of(ext@),
{
    if str_eq(ext, "rs") {
        "Rust"
    } else if str_eq(ext, "py") {
        "Python"
    } else if str_eq(ext, "js") {
        "JavaScript"
    } else if str_eq(ext, "ts") {
        "TypeScript"
    } else if str_eq(ext, "html") || str_eq(ext, "htm") {
        "HTML"
    } else if str_eq(ext, "css") {
        "CSS"
    } else if str_eq(ext, "json") {
        "JSON"
    } else if str_eq(ext, "toml") {
        "TOML"
    } else if str_eq(ext, "txt") {
        "Text"
    } else if str_eq(ext, "md") {
        "Markdown"
    } else if str_eq(ext, "png") {
        "PNG"
    } else if str_eq(ext, "jpg") || str_eq(ext, "jpeg") {
        "JPEG"
    } else if str_eq(ext, "gif") {
        "GIF"
    } else if str_eq(ext, "svg") {
        "SVG"
    } else if str_eq(ext, "mp4") {
        "Video"
    } else if str_eq(ext, "mp3") {
        "Audio"
    } else if str_eq(ext, "pdf") {
        "PDF"
    } else if str_eq(ext, "zip") {
        "ZIP"
    } else if str_eq(ext, "tar") {
        "TAR"
    } else if str_eq(ext, "gz") {
        "GZip"
    } else if str_eq(ext, "") {
        ""
    } else {
        "File"
    }
}

/// The colour of entry `n` of the 256-colour terminal palette.
pub fn ansi_256(n: u8) -> (c: [u8; 3])
    ensures
        c@ == palette_256(n),
{
    let c: [u8; 3] = if n < 16 {
        match n {
            0 => [12, 12, 12],
            1 => [197, 15, 31],
            2 => [19, 161, 14],
            3 => [193, 156, 0],
            4 => [0, 55, 218],
            5 => [136, 23, 152],
            6 => [58, 150, 221],
            7 => [204, 204, 204],
            8 => [118, 118, 118],
            9 => [231, 72, 86],
            10 => [22, 198, 12],
            11 => [249, 241, 165],
            12 => [59, 120, 255],
            13 => [180, 0, 158],
            14 => [97, 214, 214],
            _ => [242, 242, 242],
        }
    } else if n <= 231 {
        let idx = n - 16;
        proof {
            assert(idx / 36 <= 5 && idx / 6 % 6 <= 5 && idx % 6 <= 5) by (nonlinear_arith)
                requires
                    idx <= 215,
            ;
        }
        [(idx / 36) * 51, ((idx / 6) % 6) * 51, (idx % 6) * 51]
    } else {
        let v = 8 + (n - 232) * 10;
        [v, v, v]
    };
    proof {
        assert(c@ =~= palette_256(n));
    }
    c
}

} // verus!

verus! {

/// A run of terminal output drawn in one colour.
pub struct Span {
    pub text: String,
    pub col: [u8; 3],
}

/// A span as the contracts see it: its text and its colour.
pub open spec fn span_view(s: Span) -> (Seq<char>, Seq<u8>) {
    (s.text@, s.col@)
}

/// Whether `b` is an ASCII letter.
pub open spec fn is_letter_byte(b: u8) -> bool {
    (65 <= b && b <= 90) || (97 <= b && b <= 122)
}

/// Each byte taken as the character of the same number.
pub open spec fn byte_chars(b: Seq<u8>) -> Seq<char> {
    b.map_values(|x: u8| x as char)
}

/// Where the parameters of an escape sequence that start at `i` end: at the
/// first letter from `i` on, or at the end of the line.
pub open spec fn params_end(b: Seq<u8>, i: int) -> int
    decreases b.len() - i,
{
    if i >= b.len() || is_letter_byte(b[i]) {
        i
    } else {
        params_end(b, i + 1)
    }
}

/// The pieces of `s` between `;` characters, as `str::split(';')` yields
/// them: empty pieces included, and one piece more than there are `;`.
pub open spec fn split_semis(s: Seq<char>) -> Seq<Seq<char>>
    decreases s.len(),
{
    let e = first_index(s, ';');
    if e >= s.len() {
        seq![s]
    } else {
        proof {
            lemma_first_index_bounds(s, ';');
        }
        seq![s.take(e)] + split_semis(s.skip(e + 1))
    }
}

/// The pieces that parse as `u8`, parsed, in order.
pub open spec fn sgr_codes(ps: Seq<Seq<char>>) -> Seq<u8>
    decreases ps.len(),
{
    if ps.len() == 0 {
        Seq::empty()
    } else {
        let rest = sgr_codes(ps.drop_first());
        match u8_of(ps[0]) {
            Some(v) => seq![v] + rest,
            None => rest,
        }
    }
}

/// The colour after one select-graphic-rendition code: `0` and `39` give the
/// default colour back, `30`-`37` and `90`-`97` pick a named colour, and
/// every other code keeps the colour.
pub open spec fn code_colour(n: u8, dflt: Seq<u8>, col: Seq<u8>) -> Seq<u8> {
    if n == 0 || n == 39 {
        dflt
    } else if n == 30 {
        seq![12u8, 12u8, 12u8]
    } else if n == 31 {
        seq![220u8, 70u8, 70u8]
    } else if n == 32 {
        seq![60u8, 200u8, 80u8]
    } else if n == 33 {
        seq![220u8, 180u8, 50u8]
    } else if n == 34 {
        seq![80u8, 140u8, 255u8]
    } else if n == 35 {
        seq![180u8, 80u8, 220u8]
    } else if n == 36 {
        seq![60u8, 190u8, 210u8]
    } else if n == 37 {
        seq![200u8, 205u8, 230u8]
    } else if n == 90 {
        seq![80u8, 82u8, 110u8]
    } else if n == 91 {
        seq![255u8, 110u8, 110u8]
    } else if n == 92 {
        seq![100u8, 230u8, 100u8]
    } else if n == 93 {
        seq![255u8, 220u8, 80u8]
    } else if n == 94 {
        seq![110u8, 170u8, 255u8]
    } else if n == 95 {
        seq![210u8, 110u8, 255u8]
    } else if n == 96 {
        seq![90u8, 220u8, 240u8]
    } else if n == 97 {
        seq![240u8, 242u8, 255u8]
    } else {
        col
    }
}

/// The colour after the codes `c[i..]`, from the colour `col`: `38;5;n`
/// picks entry `n` of the 256-colour palette, any other code acts alone.
pub open spec fn sgr_colour(c: Seq<u8>, i: int, dflt: Seq<u8>, col: Seq<u8>) -> Seq<u8>
    decreases c.len() - i,
{
    if i >= c.len() {
        col
    } else if c[i] == 38 && i + 2 < c.len() && c[i + 1] == 5 {
        sgr_colour(c, i + 3, dflt, palette_256(c[i + 2]))
    } else {
        sgr_colour(c, i + 1, dflt, code_colour(c[i], dflt, col))
    }
}

/// `out` with the pending text `buf` added as a span, unless it is empty.
pub open spec fn flush(out: Seq<(Seq<char>, Seq<u8>)>, buf: Seq<char>, col: Seq<u8>) -> Seq<(Seq<char>, Seq<u8>)> {
    if buf.len() > 0 {
        out.push((buf, col))
    } else {
        out
    }
}

/// `params_end` lies between `i` and the end of the line, and no letter
/// comes before it.
pub proof fn lemma_params_end(b: Seq<u8>, i: int)
    requires
        i <= b.len(),
    ensures
        i <= params_end(b, i) <= b.len(),
        forall|k: int| i <= k < params_end(b, i) ==> !is_letter_byte(#[trigger] b[k]),
        params_end(b, i) < b.len() ==> is_letter_byte(b[params_end(b, i)]),
    decreases b.len() - i,
{
    if i < b.len() && !is_letter_byte(b[i]) {
        lemma_params_end(b, i + 1);
    }
}

/// The spans of the bytes `b[i..]`: `col` is the colour in force, `buf` the
/// text not yet emitted and `out` the spans emitted so far. An escape
/// `ESC [` ends the pending text; its parameters run to the next letter,
/// which is skipped, and are read as `;`-separated codes. Every other byte
/// is text. A line with no text gives one empty span in the default colour.
pub open spec fn ansi_scan(
    b: Seq<u8>,
    i: int,
    dflt: Seq<u8>,
    col: Seq<u8>,
    buf: Seq<char>,
    out: Seq<(Seq<char>, Seq<u8>)>,
) -> Seq<(Seq<char>, Seq<u8>)>
    decreases b.len() - i,
{
    if i >= b.len() {
        let all = flush(out, buf, col);
        if all.len() == 0 {
            seq![(Seq::<char>::empty(), dflt)]
        } else {
            all
        }
    } else if b[i] == 0x1b && i + 1 < b.len() && b[i + 1] == 0x5b {
        proof {
            lemma_params_end(b, i + 2);
        }
        let e = params_end(b, i + 2);
        let next = if e < b.len() {
            e + 1
        } else {
            e
        };
        let codes = sgr_codes(split_semis(byte_chars(b.subrange(i + 2, e))));
        ansi_scan(b, next, dflt, sgr_colour(codes, 0, dflt, col), Seq::empty(), flush(out, buf, col))
    } else {
        ansi_scan(b, i + 1, dflt, col, buf.push(b[i] as char), out)
    }
}

/// The spans of a line of terminal output, its colour escapes read.
pub open spec fn ansi_spans(b: Seq<u8>, dflt: Seq<u8>) -> Seq<(Seq<char>, Seq<u8>)> {
    ansi_scan(b, 0, dflt, dflt, Seq::empty(), Seq::empty())
}

/// The characters a line shows: each byte as a character, with every
/// escape `ESC [`, its parameters and the letter that ends them left out.
pub open spec fn ansi_text(b: Seq<u8>, i: int) -> Seq<char>
    decreases b.len() - i,
{
    if i >= b.len() {
        Seq::empty()
    } else if b[i] == 0x1b && i + 1 < b.len() && b[i + 1] == 0x5b {
        proof {
            lemma_params_end(b, i + 2);
        }
        let e = params_end(b, i + 2);
        ansi_text(
            b,
            if e < b.len() {
                e + 1
            } else {
                e
            },
        )
    } else {
        seq![b[i] as char] + ansi_text(b, i + 1)
    }
}

/// The texts of `spans`, one after the other.
pub open spec fn span_texts(spans: Seq<(Seq<char>, Seq<u8>)>) -> Seq<char>
    decreases spans.len(),
{
    if spans.len() == 0 {
        Seq::empty()
    } else {
        span_texts(spans.drop_last()) + spans.last().0
    }
}

/// The scan's spans hold the text emitted so far, the pending text and the
/// text of the rest of the line, in order.
proof fn lemma_scan_keeps_text(
    b: Seq<u8>,
    i: int,
    dflt: Seq<u8>,
    col: Seq<u8>,
    buf: Seq<char>,
    out: Seq<(Seq<char>, Seq<u8>)>,
)
    requires
        0 <= i,
    ensures
        span_texts(ansi_scan(b, i, dflt, col, buf, out)) == span_texts(out) + buf + ansi_text(b, i),
    decreases b.len() - i,
{
    if i >= b.len() {
        let all = flush(out, buf, col);
        if buf.len() > 0 {
            assert(all.drop_last() =~= out);
            assert(span_texts(all) == span_texts(out) + buf);
        } else {
            assert(buf =~= Seq::<char>::empty());
            assert(all == out);
        }
        if all.len() == 0 {
            let one = seq![(Seq::<char>::empty(), dflt)];
            assert(one.drop_last() =~= Seq::<(Seq<char>, Seq<u8>)>::empty());
            assert(span_texts(Seq::<(Seq<char>, Seq<u8>)>::empty()) == Seq::<char>::empty());
            assert(one.last().0 == Seq::<char>::empty());
            assert(span_texts(one) =~= Seq::<char>::empty());
            assert(out.len() == 0);
            assert(span_texts(out) == Seq::<char>::empty());
            assert(ansi_scan(b, i, dflt, col, buf, out) == one);
        } else {
            assert(ansi_scan(b, i, dflt, col, buf, out) == all);
        }
        assert(span_texts(out) + buf + ansi_text(b, i) =~= span_texts(out) + buf);
    } else if b[i] == 0x1b && i + 1 < b.len() && b[i + 1] == 0x5b {
        lemma_params_end(b, i + 2);
        let e = params_end(b, i + 2);
        let next = if e < b.len() {
            e + 1
        } else {
            e
        };
        let codes = sgr_codes(split_semis(byte_chars(b.subrange(i + 2, e))));
        let f = flush(out, buf, col);
        lemma_scan_keeps_text(b, next, dflt, sgr_colour(codes, 0, dflt, col), Seq::empty(), f);
        if buf.len() > 0 {
            assert(f.drop_last() =~= out);
        } else {
            assert(buf =~= Seq::<char>::empty());
        }
        assert(span_texts(f) + Seq::<char>::empty() + ansi_text(b, next) =~= span_texts(out) + buf + ansi_text(
            b,
            i,
        ));
    } else {
        let c = b[i] as char;
        lemma_scan_keeps_text(b, i + 1, dflt, col, buf.push(c), out);
        assert(span_texts(out) + buf.push(c) + ansi_text(b, i + 1) =~= span_texts(out) + buf + ansi_text(b, i));
    }
}

/// Reading the colour escapes keeps the text: the spans of a line, one
/// after the other, spell the line with its escape sequences left out.
pub proof fn lemma_spans_keep_text(b: Seq<u8>, dflt: Seq<u8>)
    ensures
        span_texts(ansi_spans(b, dflt)) == ansi_text(b, 0),
{
    lemma_scan_keeps_text(b, 0, dflt, dflt, Seq::empty(), Seq::empty());
    assert(span_texts(Seq::<(Seq<char>, Seq<u8>)>::empty()) + Seq::<char>::empty() + ansi_text(b, 0) =~= ansi_text(
        b,
        0,
    ));
}

/// The scan emits only spans with text, unless it ends with none at all,
/// when it gives the one empty span in the default colour.
proof fn lemma_scan_spans_nonempty(
    b: Seq<u8>,
    i: int,
    dflt: Seq<u8>,
    col: Seq<u8>,
    buf: Seq<char>,
    out: Seq<(Seq<char>, Seq<u8>)>,
)
    requires
        0 <= i,
        forall|k: int| 0 <= k < out.len() ==> (#[trigger] out[k]).0.len() > 0,
    ensures
        ansi_scan(b, i, dflt, col, buf, out).len() >= 1,
        (forall|k: int|
            0 <= k < ansi_scan(b, i, dflt, col, buf, out).len() ==> (#[trigger] ansi_scan(
                b,
                i,
                dflt,
                col,
                buf,
                out,
            )[k]).0.len() > 0) || ansi_scan(b, i, dflt, col, buf, out) == seq![(Seq::<char>::empty(), dflt)],
    decreases b.len() - i,
{
    let f = flush(out, buf, col);
    assert forall|k: int| 0 <= k < f.len() implies (#[trigger] f[k]).0.len() > 0 by {
        if buf.len() > 0 && k == out.len() {
            assert(f[k] == (buf, col));
        } else {
            assert(f[k] == out[k]);
        }
    }
    if i >= b.len() {
    } else if b[i] == 0x1b && i + 1 < b.len() && b[i + 1] == 0x5b {
        lemma_params_end(b, i + 2);
        let e = params_end(b, i + 2);
        let next = if e < b.len() {
            e + 1
        } else {
            e
        };
        let codes = sgr_codes(split_semis(byte_chars(b.subrange(i + 2, e))));
        lemma_scan_spans_nonempty(b, next, dflt, sgr_colour(codes, 0, dflt, col), Seq::empty(), f);
    } else {
        lemma_scan_spans_nonempty(b, i + 1, dflt, col, buf.push(b[i] as char), out);
    }
}

/// Reading the colour escapes always gives at least one span, and every
/// span has text unless the line shows none, when the spans are the one
/// empty span in the default colour.
pub proof fn lemma_spans_nonempty(b: Seq<u8>, dflt: Seq<u8>)
    ensures
        ansi_spans(b, dflt).len() >= 1,
        (forall|k: int| 0 <= k < ansi_spans(b, dflt).len() ==> (#[trigger] ansi_spans(b, dflt)[k]).0.len() > 0)
            || ansi_spans(b, dflt) == seq![(Seq::<char>::empty(), dflt)],
{
    lemma_scan_spans_nonempty(b, 0, dflt, dflt, Seq::empty(), Seq::empty());
}

/// The codes of an escape sequence's parameters: the `;`-separated pieces
/// that parse as `u8`.
pub fn sgr_codes_of(p: &Vec<char>) -> (r: Vec<u8>)
    ensures
        r@ == sgr_codes(split_semis(p@)),
{
    let n = p.len();
    let mut r: Vec<u8> = Vec::new();
    let mut start: usize = 0;
    let mut i: usize = 0;
    assert(p@.skip(0) =~= p@);
    while i < n
        invariant
            start <= i <= n == p@.len(),
            forall|k: int| start <= k < i ==> p@[k] != ';',
            r@ + sgr_codes(split_semis(p@.skip(start as int))) == sgr_codes(split_semis(p@)),
        decreases n - i,
    {
        if p[i] == ';' {
            let ghost rest = p@.skip(start as int);
            let ghost piece = rest.take(i - start);
            let ghost tail = split_semis(p@.skip(i + 1));
            proof {
                lemma_first_index(rest, ';', i - start);
                assert(piece =~= p@.subrange(start as int, i as int));
                assert(rest.skip(i - start + 1) =~= p@.skip(i + 1));
                assert(split_semis(rest) == seq![piece] + tail);
                assert((seq![piece] + tail).drop_first() =~= tail);
                assert((seq![piece] + tail)[0] == piece);
            }
            let v = parse_u8_in(p, start, i);
            let ghost before = r@;
            match v {
                Some(x) => {
                    r.push(x);
                    assert(r@ + sgr_codes(tail) =~= before + (seq![x] + sgr_codes(tail)));
                },
                None => {},
            }
            start = i + 1;
        }
        i = i + 1;
    }
    let ghost rest = p@.skip(start as int);
    proof {
        lemma_first_index(rest, ';', n - start);
        assert(rest =~= p@.subrange(start as int, n as int));
        assert(split_semis(rest) == seq![rest]);
        assert(seq![rest].drop_first() =~= Seq::<Seq<char>>::empty());
    }
    let v = parse_u8_in(p, start, n);
    let ghost before = r@;
    proof {
        assert(seq![rest][0] == rest);
        assert(sgr_codes(Seq::<Seq<char>>::empty()) == Seq::<u8>::empty());
        assert(before + sgr_codes(seq![rest]) == sgr_codes(split_semis(p@)));
    }
    match v {
        Some(x) => {
            r.push(x);
            assert(sgr_codes(seq![rest]) =~= seq![x]);
            assert(r@ =~= before + seq![x]);
        },
        None => {
            assert(sgr_codes(seq![rest]) =~= Seq::<u8>::empty());
            assert(r@ =~= before + Seq::<u8>::empty());
        },
    }
    r
}

/// The colour after one code.
pub fn code_colour_of(n: u8, dflt: [u8; 3], col: [u8; 3]) -> (r: [u8; 3])
    ensures
        r@ == code_colour(n, dflt@, col@),
{
    let r: [u8; 3] = match n {
        0 | 39 => dflt,
        30 => [12, 12, 12],
        31 => [220, 70, 70],
        32 => [60, 200, 80],
        33 => [220, 180, 50],
        34 => [80, 140, 255],
        35 => [180, 80, 220],
        36 => [60, 190, 210],
        37 => [200, 205, 230],
        90 => [80, 82, 110],
        91 => [255, 110, 110],
        92 => [100, 230, 100],
        93 => [255, 220, 80],
        94 => [110, 170, 255],
        95 => [210, 110, 255],
        96 => [90, 220, 240],
        97 => [240, 242, 255],
        _ => col,
    };
    proof {
        assert(r@ =~= code_colour(n, dflt@, col@));
    }
    r
}

/// The colour after the codes `c`, from `col`.
pub fn sgr_colour_of(c: &Vec<u8>, dflt: [u8; 3], col: [u8; 3]) -> (r: [u8; 3])
    ensures
        r@ == sgr_colour(c@, 0, dflt@, col@),
{
    let n = c.len();
    let mut cur = col;
    let mut ci: usize = 0;
    while ci < n
        invariant
            ci <= n == c@.len(),
            sgr_colour(c@, ci as int, dflt@, cur@) == sgr_colour(c@, 0, dflt@, col@),
        decreases n - ci,
    {
        if c[ci] == 38 && n - ci > 2 && c[ci + 1] == 5 {
            cur = ansi_256(c[ci + 2]);
            ci = ci + 3;
        } else {
            cur = code_colour_of(c[ci], dflt, cur);
            ci = ci + 1;
        }
    }
    cur
}

/// `s` with `buf` added as a span in colour `col` when it is not empty;
/// `buf` is emptied.
fn flush_span(out: &mut Vec<Span>, buf: &mut Vec<char>, col: [u8; 3])
    ensures
        final(out)@.map_values(|s: Span| span_view(s)) == flush(
            old(out)@.map_values(|s: Span| span_view(s)),
            old(buf)@,
            col@,
        ),
        final(buf)@.len() == 0,
{
    if buf.len() > 0 {
        let text = string_from_chars(buf, 0, buf.len());
        assert(buf@.subrange(0, buf@.len() as int) =~= buf@);
        let ghost before = out@;
        out.push(Span { text, col });
        assert(out@.map_values(|s: Span| span_view(s)) =~= before.map_values(|s: Span| span_view(s)).push(
            (buf@, col@),
        ));
        *buf = Vec::new();
    }
}

/// The spans of a line of terminal output: its text split where a colour
/// escape `ESC [ ... m` stands, each piece with the colour in force.
pub fn parse_ansi(line: &str, default_col: [u8; 3]) -> (r: Vec<Span>)
    ensures
        r@.map_values(|s: Span| span_view(s)) == ansi_spans(line.spec_bytes(), default_col@),
{
    let bytes = line.as_bytes_vec();
    let ghost b = bytes@;
    let n = bytes.len();
    let ghost dflt = default_col@;
    let mut spans: Vec<Span> = Vec::new();
    let mut col: [u8; 3] = default_col;
    let mut buf: Vec<char> = Vec::new();
    let mut i: usize = 0;
    proof {
        assert(spans@.map_values(|s: Span| span_view(s)) =~= Seq::<(Seq<char>, Seq<u8>)>::empty());
        assert(buf@ =~= Seq::<char>::empty());
    }
    while i < n
        invariant
            i <= n == b.len(),
            b == bytes@,
            b == line.spec_bytes(),
            dflt == default_col@,
            ansi_scan(b, i as int, dflt, col@, buf@, spans@.map_values(|s: Span| span_view(s)))
                == ansi_spans(b, dflt),
        decreases n - i,
    {
        if bytes[i] == 0x1b && i + 1 < n && bytes[i + 1] == 0x5b {
            let ghost old_col = col@;
            let ghost old_buf = buf@;
            let ghost old_out = spans@.map_values(|s: Span| span_view(s));
            proof {
                lemma_params_end(b, i + 2);
            }
            flush_span(&mut spans, &mut buf, col);
            let start = i + 2;
            let mut j = start;
            let mut params: Vec<char> = Vec::new();
            while j < n && !((65 <= bytes[j] && bytes[j] <= 90) || (97 <= bytes[j] && bytes[j] <= 122))
                invariant
                    start <= j <= n == b.len(),
                    b == bytes@,
                    params@ == byte_chars(b.subrange(start as int, j as int)),
                    forall|k: int| start <= k < j ==> !is_letter_byte(#[trigger] b[k]),
                decreases n - j,
            {
                let x = bytes[j];
                params.push(x as char);
                assert(byte_chars(b.subrange(start as int, j + 1)) =~= byte_chars(
                    b.subrange(start as int, j as int),
                ).push(x as char));
                j = j + 1;
            }
            assert(j == params_end(b, start as int)) by {
                lemma_params_end(b, start as int);
                if j < params_end(b, start as int) {
                    assert(!is_letter_byte(b[j as int]));
                }
                if params_end(b, start as int) < j {
                    assert(!is_letter_byte(b[params_end(b, start as int)]));
                }
            }
            let next = if j < n {
                j + 1
            } else {
                j
            };
            let codes = sgr_codes_of(&params);
            col = sgr_colour_of(&codes, default_col, col);
            proof {
                assert(buf@ =~= Seq::<char>::empty());
            }
            i = next;
        } else {
            let x = bytes[i];
            buf.push(x as char);
            i = i + 1;
        }
    }
    flush_span(&mut spans, &mut buf, col);
    if spans.len() == 0 {
        spans.push(Span { text: String::new(), col: default_col });
        proof {
            assert(spans@.map_values(|s: Span| span_view(s)) =~= seq![(Seq::<char>::empty(), dflt)]);
        }
    }
    spans
}

/// The file browser's rows shown for `len` entries scrolled by `scroll`,
/// listed from `list_y0` down to `y1` in rows 22 pixels high: from the
/// scroll position (kept on the last entry) for as many rows as fit, at
/// least one.
pub open spec fn explorer_rows_spec(len: int, scroll: int, list_y0: int, y1: int) -> (int, int) {
    let start = explorer_first_row(len, scroll);
    let visible = explorer_rows_fitting(list_y0, y1);
    (start, if start + visible <= len { start + visible } else { len })
}

/// The first entry shown: the scroll position, kept on the last entry.
pub open spec fn explorer_first_row(len: int, scroll: int) -> int {
    let last = if len >= 1 { len - 1 } else { 0 };
    if scroll <= last { scroll } else { last }
}

/// How many 22-pixel rows fit from `list_y0` down to `y1`: at least one.
pub open spec fn explorer_rows_fitting(list_y0: int, y1: int) -> int {
    let room = if y1 >= list_y0 { y1 - list_y0 } else { 0 };
    if room / 22 >= 1 { room / 22 } else { 1 }
}

impl WindowRenderer {
    /// The range of entries the file browser shows: see
    /// [`explorer_rows_spec`].
    pub fn explorer_rows(len: usize, scroll: usize, list_y0: usize, y1: usize) -> (r: (usize, usize))
        ensures
            r.0 as int == explorer_rows_spec(len as int, scroll as int, list_y0 as int, y1 as int).0,
            r.1 as int == explorer_rows_spec(len as int, scroll as int, list_y0 as int, y1 as int).1,
            r.0 <= r.1,
            r.1 <= len,
    {
        let room = y1.saturating_sub(list_y0);
        let visible = if room / 22 >= 1 { room / 22 } else { 1 };
        let last = len.saturating_sub(1);
        let start = if scroll <= last { scroll } else { last };
        let end = if visible <= len - start { start + visible } else { len };
        (start, end)
    }
}

} // verus!
