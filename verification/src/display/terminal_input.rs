//! The terminal window's line editor: typing, the command history, tab
//! completion, and the lines a command's output adds.
use vstd::prelude::*;
use crate::explorer_state::DirItem;
use crate::text::{
    append, chars_le, chars_of, first_index, i32_to_string, int_text, lines_of, owned,
    parent_of_path, path_parent, push_char, split_words, str_eq, str_le, string_from_chars, text_lines,
    trim, trimmed, words,
};
use crate::window_manager::Window;

verus! {

broadcast use vstd::string::group_string_axioms;

/// The line editor's part of a window, as plain values.
pub struct TermView {
    pub input: Seq<char>,
    pub output: Seq<Seq<char>>,
    pub history: Seq<Seq<char>>,
    pub history_index: Option<usize>,
    pub scroll: usize,
}

/// The plain values of a list of strings.
pub open spec fn lines_view(v: Seq<String>) -> Seq<Seq<char>> {
    v.map_values(|s: String| s@)
}

/// The line editor's part of window `w`.
pub open spec fn term_view(w: Window) -> TermView {
    TermView {
        input: w.input_buffer@,
        output: lines_view(w.output_lines@),
        history: lines_view(w.history@),
        history_index: w.history_index,
        scroll: w.scroll_offset,
    }
}

/// `b` is `a` but for the line editor's part.
pub open spec fn editor_only(a: Window, b: Window) -> bool {
    (Window {
        input_buffer: a.input_buffer,
        output_lines: a.output_lines,
        history: a.history,
        history_index: a.history_index,
        scroll_offset: a.scroll_offset,
        ..b
    }) == a
}

/// The prompt line echoed for `input`.
pub open spec fn prompt(input: Seq<char>) -> Seq<char> {
    "user@trimangees:~$ "@ + input
}

/// A control character (Unicode category Cc), as `char::is_control` decides.
pub open spec fn is_control(c: char) -> bool {
    c <= '\u{1f}' || ('\u{7f}' <= c && c <= '\u{9f}')
}

/// The characters of `s` that are not control characters.
pub open spec fn printable(s: Seq<char>) -> Seq<char> {
    s.filter(|c: char| !is_control(c))
}

/// What Enter did besides editing: nothing more, close the window, or run a
/// command line.
pub enum Submit {
    Done,
    Close,
    Run(String),
}

/// The command line Enter submits.
pub open spec fn command_of(t: TermView) -> Seq<char> {
    trimmed(t.input)
}

/// The line editor after Enter: the prompt and command are echoed, a
/// non-empty command different from the last one joins the history, the
/// input empties and the view goes back to the end; an empty command adds
/// an empty line, and `clear` empties the output but for one empty line.
pub open spec fn submitted(t: TermView) -> TermView {
    let cmd = command_of(t);
    let out = t.output.push(prompt(cmd));
    TermView {
        input: Seq::empty(),
        output: if cmd.len() == 0 {
            out.push(Seq::empty())
        } else if cmd == "clear"@ {
            seq![Seq::<char>::empty()]
        } else {
            out
        },
        history: if cmd.len() > 0 && (t.history.len() == 0 || t.history.last() != cmd) {
            t.history.push(cmd)
        } else {
            t.history
        },
        history_index: None,
        scroll: 0,
    }
}

/// The view after recalling the previous command of the history.
pub open spec fn recalled_older(t: TermView) -> TermView {
    if t.history.len() == 0 {
        t
    } else {
        let i: int = match t.history_index {
            None => t.history.len() - 1,
            Some(j) => if j >= 1 { j - 1 } else { 0 },
        };
        TermView { history_index: Some(i as usize), input: t.history[i], ..t }
    }
}

/// The view after recalling the next command of the history, or an empty
/// input past its end.
pub open spec fn recalled_newer(t: TermView) -> TermView {
    match t.history_index {
        Some(i) if i + 1 < t.history.len() => TermView {
            history_index: Some((i + 1) as usize),
            input: t.history[i + 1],
            ..t
        },
        _ => TermView { history_index: None, input: Seq::empty(), ..t },
    }
}

/// The lines a finished command adds: its output lines, its error lines
/// marked `stderr: `, its exit code when it failed (-1 when it has none),
/// and an empty line.
pub open spec fn result_lines(
    stdout: Seq<char>,
    stderr: Seq<char>,
    success: bool,
    code: Option<i32>,
) -> Seq<Seq<char>> {
    let errs = text_lines(stderr).map_values(|l: Seq<char>| "stderr: "@ + l);
    let status = if success {
        Seq::<Seq<char>>::empty()
    } else {
        seq!["exit code: "@ + int_text(match code { Some(c) => c as int, None => -1 })]
    };
    text_lines(stdout) + errs + status + seq![Seq::<char>::empty()]
}

/// How a command run went: its output, error output, success and exit
/// code, or the error that kept it from starting.
pub enum CommandResult {
    Ran { stdout: String, stderr: String, success: bool, code: Option<i32> },
    Failed(String),
}

/// The lines a command's result adds.
pub open spec fn result_view(r: CommandResult) -> Seq<Seq<char>> {
    match r {
        CommandResult::Ran { stdout, stderr, success, code } => result_lines(
            stdout@,
            stderr@,
            success,
            code,
        ),
        CommandResult::Failed(e) => seq!["error: "@ + e@, Seq::<char>::empty()],
    }
}

/// The word completion works on: the input's last word, or nothing.
pub open spec fn last_word(input: Seq<char>) -> Seq<char> {
    let ws = words(input);
    if ws.len() == 0 { Seq::empty() } else { ws.last() }
}

/// Index of the last `c` in `p`, or -1.
pub open spec fn last_index(p: Seq<char>, c: char) -> int
    decreases p.len(),
{
    if p.len() == 0 {
        -1
    } else if p.last() == c {
        p.len() - 1
    } else {
        last_index(p.drop_last(), c)
    }
}

/// The part of `p` after its last `/` (all of `p` when it has none), as
/// `p.split('/').last()` gives it.
pub open spec fn after_last_slash(p: Seq<char>) -> Seq<char> {
    p.skip(last_index(p, '/') + 1)
}

/// The folder completion lists: the last word's parent folder when the
/// word has a `/` (the current folder when it has no parent), else the
/// current folder.
pub open spec fn completion_dir(input: Seq<char>) -> Seq<char> {
    let w = last_word(input);
    if last_index(w, '/') >= 0 {
        match path_parent(w) {
            Some(p) => p,
            None => "."@,
        }
    } else {
        "."@
    }
}

/// The name prefix completion looks for.
pub open spec fn completion_prefix(input: Seq<char>) -> Seq<char> {
    after_last_slash(last_word(input))
}

impl TermView {
    /// The line editor after Backspace: the input loses its last character.
    pub open spec fn backspaced(self) -> TermView {
        TermView {
            input: if self.input.len() > 0 { self.input.drop_last() } else { self.input },
            ..self
        }
    }
}

/// Backspace: the input loses its last character.
pub fn backspace(w: &mut Window)
    ensures
        term_view(*final(w)) == term_view(*old(w)).backspaced(),
        editor_only(*old(w), *final(w)),
{
    let cs = chars_of(w.input_buffer.as_str());
    if cs.len() > 0 {
        let s = string_from_chars(&cs, 0, cs.len() - 1);
        assert(s@ =~= old(w).input_buffer@.drop_last());
        w.input_buffer = s;
    }
}

/// Typed text: its characters that are not control characters join the
/// input.
pub fn type_text(w: &mut Window, s: &str)
    ensures
        term_view(*final(w)) == (TermView {
            input: term_view(*old(w)).input + printable(s@),
            ..term_view(*old(w))
        }),
        editor_only(*old(w), *final(w)),
{
    let cs = chars_of(s);
    let ghost p = |c: char| !is_control(c);
    let mut k: usize = 0;
    assert(cs@.take(0).filter(p) =~= Seq::<char>::empty());
    assert(w.input_buffer@ =~= old(w).input_buffer@ + cs@.take(0).filter(p));
    while k < cs.len()
        invariant
            k <= cs@.len(),
            cs@ == s@,
            p == (|c: char| !is_control(c)),
            w.input_buffer@ == old(w).input_buffer@ + cs@.take(k as int).filter(p),
            editor_only(*old(w), *w),
            lines_view(w.output_lines@) == lines_view(old(w).output_lines@),
            lines_view(w.history@) == lines_view(old(w).history@),
            w.history_index == old(w).history_index,
            w.scroll_offset == old(w).scroll_offset,
        decreases cs@.len() - k,
    {
        let c = cs[k];
        proof {
            let s1 = cs@.take(k + 1);
            reveal_with_fuel(Seq::filter, 1);
            assert(s1.drop_last() =~= cs@.take(k as int));
            assert(s1.last() == c);
        }
        if !(c <= '\u{1f}' || ('\u{7f}' <= c && c <= '\u{9f}')) {
            push_char(&mut w.input_buffer, c);
            proof {
                assert(w.input_buffer@ =~= old(w).input_buffer@ + cs@.take(k + 1).filter(p));
            }
        }
        k = k + 1;
    }
    assert(cs@.take(k as int) =~= cs@);
}

/// Empties the input.
pub fn clear_input(w: &mut Window)
    ensures
        term_view(*final(w)) == (TermView { input: Seq::empty(), ..term_view(*old(w)) }),
        editor_only(*old(w), *final(w)),
{
    w.input_buffer = String::new();
}

/// Enter: see [`submitted`]. Says whether the command closes the window
/// (`exit`, `quit`) or is to be run.
pub fn submit(w: &mut Window) -> (r: Submit)
    ensures
        term_view(*final(w)) == submitted(term_view(*old(w))),
        editor_only(*old(w), *final(w)),
        ({
            let cmd = command_of(term_view(*old(w)));
            match r {
                Submit::Done => cmd.len() == 0 || cmd == "clear"@,
                Submit::Close => cmd == "exit"@ || cmd == "quit"@,
                Submit::Run(c) => c@ == cmd && cmd.len() > 0 && cmd != "clear"@ && cmd != "exit"@
                    && cmd != "quit"@,
            }
        }),
{
    let ghost t = term_view(*old(w));
    let cmd = trim(w.input_buffer.as_str());
    let mut line = owned("user@trimangees:~$ ");
    append(&mut line, cmd.as_str());
    let ghost out0 = w.output_lines@;
    w.output_lines.push(line);
    assert(lines_view(w.output_lines@) =~= t.output.push(prompt(cmd@)));
    let empty = crate::text::is_empty_str(cmd.as_str());
    if !empty {
        let differs = match w.history.last() {
            Some(l) => !str_eq(l.as_str(), cmd.as_str()),
            None => true,
        };
        if differs {
            let ghost h0 = w.history@;
            w.history.push(cmd.clone());
            assert(lines_view(w.history@) =~= t.history.push(cmd@));
        }
    }
    w.history_index = None;
    w.input_buffer = String::new();
    w.scroll_offset = 0;
    if empty {
        w.output_lines.push(String::new());
        assert(lines_view(w.output_lines@) =~= t.output.push(prompt(cmd@)).push(Seq::empty()));
        return Submit::Done;
    }
    if str_eq(cmd.as_str(), "clear") {
        w.output_lines = Vec::new();
        w.output_lines.push(String::new());
        assert(lines_view(w.output_lines@) =~= seq![Seq::<char>::empty()]);
        return Submit::Done;
    }
    if str_eq(cmd.as_str(), "exit") || str_eq(cmd.as_str(), "quit") {
        return Submit::Close;
    }
    Submit::Run(cmd)
}

} // verus!

verus! {

/// The number of bytes of `c` in UTF-8.
pub open spec fn utf8_len(c: char) -> int {
    if (c as u32) < 0x80 {
        1
    } else if (c as u32) < 0x800 {
        2
    } else if (c as u32) < 0x10000 {
        3
    } else {
        4
    }
}

/// The number of bytes of `s` in UTF-8.
pub open spec fn byte_len(s: Seq<char>) -> int
    decreases s.len(),
{
    if s.len() == 0 { 0 } else { byte_len(s.drop_last()) + utf8_len(s.last()) }
}

/// `s` starts with `p`.
pub open spec fn starts_with(s: Seq<char>, p: Seq<char>) -> bool {
    p.len() <= s.len() && s.take(p.len() as int) == p
}

/// The completions an entry list offers for `prefix`: the names that start
/// with it, folders marked with a trailing `/`, in listing order.
pub open spec fn candidates(items: Seq<DirItem>, prefix: Seq<char>) -> Seq<Seq<char>>
    decreases items.len(),
{
    if items.len() == 0 {
        Seq::empty()
    } else {
        let it = items.last();
        let rest = candidates(items.drop_last(), prefix);
        if starts_with(it.name@, prefix) {
            rest.push(if it.is_dir { it.name@ + "/"@ } else { it.name@ })
        } else {
            rest
        }
    }
}

/// `s` with `x` inserted after every string not greater than it.
pub open spec fn insert_str(s: Seq<Seq<char>>, x: Seq<char>) -> Seq<Seq<char>>
    decreases s.len(),
{
    if s.len() == 0 {
        seq![x]
    } else if chars_le(s.last(), x) {
        s.push(x)
    } else {
        insert_str(s.drop_last(), x).push(s.last())
    }
}

/// `s` sorted, as `Vec<String>::sort` orders it.
pub open spec fn sort_strs(s: Seq<Seq<char>>) -> Seq<Seq<char>>
    decreases s.len(),
{
    if s.len() == 0 {
        s
    } else {
        insert_str(sort_strs(s.drop_last()), s.last())
    }
}

/// The strings of `s` joined by two spaces.
pub open spec fn join2(s: Seq<Seq<char>>) -> Seq<char>
    decreases s.len(),
{
    if s.len() == 0 {
        Seq::empty()
    } else if s.len() == 1 {
        s[0]
    } else {
        join2(s.drop_last()) + "  "@ + s.last()
    }
}

/// The number of characters of `s` whose UTF-8 bytes make `b` bytes, if
/// `b` falls between two characters.
pub open spec fn char_cut(s: Seq<char>, b: int) -> Option<int> {
    if exists|k: int| 0 <= k <= s.len() && #[trigger] byte_len(s.take(k)) == b {
        Some(choose|k: int| 0 <= k <= s.len() && #[trigger] byte_len(s.take(k)) == b)
    } else {
        None
    }
}

/// The input after completing it to `m`: `m` is appended when there is no
/// word, else it replaces as many bytes at the end as the last word has.
pub open spec fn completed_input(input: Seq<char>, m: Seq<char>) -> Seq<char> {
    let w = last_word(input);
    if w.len() == 0 {
        input + m
    } else {
        input.take(char_cut(input, byte_len(input) - byte_len(w))->0) + m
    }
}

/// The line editor after completion with the sorted candidates `ms`: a
/// single candidate completes the input; several are listed under an echo
/// of the prompt.
pub open spec fn after_completion(t: TermView, ms: Seq<Seq<char>>) -> TermView {
    if ms.len() == 1 {
        TermView { input: completed_input(t.input, ms[0]), ..t }
    } else if ms.len() > 1 {
        TermView { output: t.output + seq![prompt(t.input), join2(ms), Seq::<char>::empty()], ..t }
    } else {
        t
    }
}

/// Completing with a single candidate cuts the input between two
/// characters.
pub open spec fn completion_fits(t: TermView, items: Seq<DirItem>) -> bool {
    let ms = sort_strs(candidates(items, completion_prefix(t.input)));
    ms.len() == 1 && last_word(t.input).len() > 0 ==> char_cut(
        t.input,
        byte_len(t.input) - byte_len(last_word(t.input)),
    ) is Some
}

/// The view after recalling the previous command can index the history.
pub open spec fn older_fits(t: TermView) -> bool {
    t.history.len() > 0 ==> (t.history_index matches Some(j) ==> (if j >= 1 { j - 1 } else { 0int }) < t.history.len())
}

/// Up arrow: recalls the previous command of the history.
pub fn recall_older(w: &mut Window)
    requires
        older_fits(term_view(*old(w))),
    ensures
        term_view(*final(w)) == recalled_older(term_view(*old(w))),
        editor_only(*old(w), *final(w)),
{
    let n = w.history.len();
    if n > 0 {
        let i: usize = match w.history_index {
            None => n - 1,
            Some(j) => if j >= 1 { j - 1 } else { 0 },
        };
        w.history_index = Some(i);
        w.input_buffer = w.history[i].clone();
    }
}

/// Down arrow: recalls the next command of the history, or empties the
/// input past its end.
pub fn recall_newer(w: &mut Window)
    requires
        old(w).history_index matches Some(i) ==> i < usize::MAX,
    ensures
        term_view(*final(w)) == recalled_newer(term_view(*old(w))),
        editor_only(*old(w), *final(w)),
{
    match w.history_index {
        Some(i) => {
            if i + 1 < w.history.len() {
                w.history_index = Some(i + 1);
                w.input_buffer = w.history[i + 1].clone();
                return;
            }
        },
        None => {},
    }
    w.history_index = None;
    w.input_buffer = String::new();
}

/// Ctrl+C: the input is echoed with `^C` and dropped.
pub fn interrupt(w: &mut Window)
    ensures
        term_view(*final(w)) == (TermView {
            input: Seq::empty(),
            output: term_view(*old(w)).output + seq![prompt(old(w).input_buffer@) + "^C"@, Seq::<char>::empty()],
            scroll: 0,
            ..term_view(*old(w))
        }),
        editor_only(*old(w), *final(w)),
{
    let mut line = owned("user@trimangees:~$ ");
    append(&mut line, w.input_buffer.as_str());
    append(&mut line, "^C");
    w.output_lines.push(line);
    w.output_lines.push(String::new());
    w.input_buffer = String::new();
    w.scroll_offset = 0;
    assert(lines_view(w.output_lines@) =~= term_view(*old(w)).output + seq![prompt(old(w).input_buffer@) + "^C"@, Seq::<char>::empty()]);
}

/// Ctrl+L: the output is cleared but for one empty line.
pub fn clear_screen(w: &mut Window)
    ensures
        term_view(*final(w)) == (TermView {
            output: seq![Seq::<char>::empty()],
            scroll: 0,
            ..term_view(*old(w))
        }),
        editor_only(*old(w), *final(w)),
{
    w.output_lines = Vec::new();
    w.output_lines.push(String::new());
    w.scroll_offset = 0;
    assert(lines_view(w.output_lines@) =~= seq![Seq::<char>::empty()]);
}

/// Appends the strings of `lines`, each after `prefix`, to `out`.
fn push_lines(out: &mut Vec<String>, lines: &Vec<String>, prefix: &str)
    ensures
        lines_view(final(out)@) == lines_view(old(out)@) + lines_view(lines@).map_values(
            |l: Seq<char>| prefix@ + l,
        ),
{
    let mut k: usize = 0;
    while k < lines.len()
        invariant
            k <= lines@.len(),
            lines_view(out@) == lines_view(old(out)@) + lines_view(lines@.take(k as int)).map_values(
                |l: Seq<char>| prefix@ + l,
            ),
        decreases lines@.len() - k,
    {
        let mut s = owned(prefix);
        append(&mut s, lines[k].as_str());
        let ghost before = out@;
        out.push(s);
        proof {
            assert(lines_view(lines@.take(k + 1)).map_values(|l: Seq<char>| prefix@ + l) =~= lines_view(
                lines@.take(k as int),
            ).map_values(|l: Seq<char>| prefix@ + l).push(prefix@ + lines@[k as int]@));
            assert(lines_view(out@) =~= lines_view(before).push(s@));
        }
        k = k + 1;
    }
    assert(lines@.take(k as int) =~= lines@);
}

/// A command finished: see [`result_view`].
pub fn command_result(w: &mut Window, r: &CommandResult)
    ensures
        term_view(*final(w)) == (TermView {
            output: term_view(*old(w)).output + result_view(*r),
            ..term_view(*old(w))
        }),
        editor_only(*old(w), *final(w)),
{
    match r {
        CommandResult::Ran { stdout, stderr, success, code } => {
            let outs = lines_of(stdout.as_str());
            let errs = lines_of(stderr.as_str());
            let ghost o0 = lines_view(w.output_lines@);
            assert(lines_view(outs@) =~= text_lines(stdout@));
            assert(lines_view(errs@) =~= text_lines(stderr@));
            push_lines(&mut w.output_lines, &outs, "");
            proof {
                reveal_strlit("");
                assert(lines_view(outs@).map_values(|l: Seq<char>| ""@ + l) =~= text_lines(stdout@));
            }
            let ghost o1 = lines_view(w.output_lines@);
            assert(o1 == o0 + text_lines(stdout@));
            push_lines(&mut w.output_lines, &errs, "stderr: ");
            let ghost o2 = lines_view(w.output_lines@);
            assert(o2 == o1 + text_lines(stderr@).map_values(|l: Seq<char>| "stderr: "@ + l));
            if !*success {
                let c: i32 = match code {
                    Some(c) => *c,
                    None => -1,
                };
                let mut line = owned("exit code: ");
                append(&mut line, i32_to_string(c).as_str());
                w.output_lines.push(line);
            }
            let ghost o3 = lines_view(w.output_lines@);
            let ghost st = if *success {
                Seq::<Seq<char>>::empty()
            } else {
                seq!["exit code: "@ + int_text(match *code { Some(c) => c as int, None => -1 })]
            };
            assert(o3 =~= o2 + st);
            w.output_lines.push(String::new());
            assert(lines_view(w.output_lines@) =~= o3.push(Seq::<char>::empty()));
            let ghost errs_m = text_lines(stderr@).map_values(|l: Seq<char>| "stderr: "@ + l);
            assert(result_view(*r) == text_lines(stdout@) + errs_m + st + seq![Seq::<char>::empty()]);
            assert(lines_view(w.output_lines@) =~= term_view(*old(w)).output + result_view(*r));
        },
        CommandResult::Failed(e) => {
            let mut line = owned("error: ");
            append(&mut line, e.as_str());
            w.output_lines.push(line);
            w.output_lines.push(String::new());
            assert(lines_view(w.output_lines@) =~= term_view(*old(w)).output + result_view(*r));
        },
    }
}

} // verus!

verus! {

/// The input's last word, or an empty string.
fn last_word_of(input: &str) -> (r: String)
    ensures
        r@ == last_word(input@),
{
    let ws = split_words(input);
    if ws.len() == 0 {
        String::new()
    } else {
        proof {
            assert(ws@.map_values(|w: String| w@).last() == ws@.last()@);
        }
        ws[ws.len() - 1].clone()
    }
}

/// Index of the last `c` in `cs`, or `None`.
fn find_last(cs: &Vec<char>, c: char) -> (r: Option<usize>)
    ensures
        match r {
            Some(i) => i == last_index(cs@, c) && i < cs@.len(),
            None => last_index(cs@, c) == -1,
        },
{
    let mut k = cs.len();
    proof {
        assert(cs@.take(k as int) =~= cs@);
    }
    while k > 0
        invariant
            k <= cs@.len(),
            last_index(cs@, c) == last_index(cs@.take(k as int), c),
        decreases k,
    {
        assert(cs@.take(k as int).last() == cs@[k - 1]);
        if cs[k - 1] == c {
            return Some(k - 1);
        }
        assert(cs@.take(k as int).drop_last() =~= cs@.take(k - 1));
        k = k - 1;
    }
    None
}

/// Tab: the folder to list and the name prefix to complete.
pub fn completion_request(w: &Window) -> (r: (String, String))
    ensures
        r.0@ == completion_dir(w.input_buffer@),
        r.1@ == completion_prefix(w.input_buffer@),
{
    let lw = last_word_of(w.input_buffer.as_str());
    let cs = chars_of(lw.as_str());
    match find_last(&cs, '/') {
        Some(i) => {
            let dir = match parent_of_path(lw.as_str()) {
                Some(p) => p,
                None => owned("."),
            };
            assert(cs@.len() == cs.len());
            let prefix = string_from_chars(&cs, i + 1, cs.len());
            assert(prefix@ =~= after_last_slash(lw@));
            (dir, prefix)
        },
        None => {
            assert(cs@.skip(0) =~= cs@);
            (owned("."), lw)
        },
    }
}

/// Whether `s` starts with `p`.
fn has_prefix(s: &str, p: &str) -> (r: bool)
    ensures
        r == starts_with(s@, p@),
{
    let a = chars_of(s);
    let b = chars_of(p);
    if b.len() > a.len() {
        return false;
    }
    let mut k: usize = 0;
    while k < b.len()
        invariant
            k <= b@.len() <= a@.len(),
            a@ == s@,
            b@ == p@,
            forall|j: int| 0 <= j < k ==> a@[j] == b@[j],
        decreases b@.len() - k,
    {
        if a[k] != b[k] {
            assert(s@.take(p@.len() as int)[k as int] != p@[k as int]);
            return false;
        }
        k = k + 1;
    }
    assert(s@.take(p@.len() as int) =~= p@);
    true
}

/// The completions `items` offer for `prefix`, in listing order.
fn candidate_list(items: &Vec<DirItem>, prefix: &str) -> (r: Vec<String>)
    ensures
        lines_view(r@) == candidates(items@, prefix@),
{
    let mut r: Vec<String> = Vec::new();
    let mut k: usize = 0;
    while k < items.len()
        invariant
            k <= items@.len(),
            lines_view(r@) == candidates(items@.take(k as int), prefix@),
        decreases items@.len() - k,
    {
        let it = &items[k];
        proof {
            assert(items@.take(k + 1).drop_last() =~= items@.take(k as int));
            assert(items@.take(k + 1).last() == items@[k as int]);
        }
        if has_prefix(it.name.as_str(), prefix) {
            let mut s = it.name.clone();
            if it.is_dir {
                append(&mut s, "/");
            }
            let ghost before = r@;
            r.push(s);
            assert(lines_view(r@) =~= lines_view(before).push(s@));
        }
        k = k + 1;
    }
    assert(items@.take(k as int) =~= items@);
    r
}

/// `v` sorted.
fn sort_strings(v: Vec<String>) -> (r: Vec<String>)
    ensures
        lines_view(r@) == sort_strs(lines_view(v@)),
{
    let ghost vs = lines_view(v@);
    let n = v.len();
    let mut src = v;
    let mut out: Vec<String> = Vec::new();
    let mut k: usize = 0;
    assert(sort_strs(vs.take(0)) =~= lines_view(out@));
    while src.len() > 0
        invariant
            k <= n == vs.len(),
            k + src@.len() == n,
            lines_view(src@) == vs.skip(k as int),
            lines_view(out@) == sort_strs(vs.take(k as int)),
        decreases src@.len(),
    {
        let ghost old_src = src@;
        let x = src.remove(0);
        proof {
            assert(lines_view(src@) =~= lines_view(old_src).skip(1));
            assert(vs.skip(k as int).skip(1) =~= vs.skip(k + 1));
            assert(lines_view(old_src)[0] == x@);
            assert(vs.take(k + 1).drop_last() =~= vs.take(k as int));
            assert(vs.take(k + 1).last() == x@);
        }
        insert_sorted(&mut out, x);
        k = k + 1;
    }
    assert(vs.take(k as int) =~= vs);
    out
}

/// Inserts `x` after every string of `out` not greater than it.
fn insert_sorted(out: &mut Vec<String>, x: String)
    ensures
        lines_view(final(out)@) == insert_str(lines_view(old(out)@), x@),
{
    let ghost s0 = lines_view(out@);
    let mut tail: Vec<String> = Vec::new();
    // move the strings greater than x off the end
    while out.len() > 0 && !str_le(out[out.len() - 1].as_str(), x.as_str())
        invariant
            insert_str(s0, x@) == insert_str(lines_view(out@), x@) + lines_view(tail@).reverse(),
        decreases out@.len(),
    {
        let ghost o = lines_view(out@);
        let y = out.pop().unwrap();
        proof {
            assert(lines_view(out@) =~= o.drop_last());
            assert(o.last() == y@);
            assert(insert_str(o, x@) == insert_str(o.drop_last(), x@).push(o.last()));
        }
        let ghost t = lines_view(tail@);
        tail.push(y);
        proof {
            assert(lines_view(tail@).reverse() =~= seq![y@] + t.reverse());
            assert(insert_str(lines_view(out@), x@).push(y@) + t.reverse() =~= insert_str(
                lines_view(out@),
                x@,
            ) + (seq![y@] + t.reverse()));
        }
    }
    let ghost o = lines_view(out@);
    assert(insert_str(o, x@) == o.push(x@));
    out.push(x);
    assert(lines_view(out@) =~= o.push(x@));
    while tail.len() > 0
        invariant
            insert_str(s0, x@) == lines_view(out@) + lines_view(tail@).reverse(),
        decreases tail@.len(),
    {
        let ghost t = lines_view(tail@);
        let ghost o2 = lines_view(out@);
        let y = tail.pop().unwrap();
        out.push(y);
        proof {
            assert(lines_view(tail@) =~= t.drop_last());
            assert(t.reverse() =~= seq![y@] + t.drop_last().reverse());
            assert(lines_view(out@) =~= o2.push(y@));
            assert(o2 + t.reverse() =~= o2.push(y@) + t.drop_last().reverse());
        }
    }
    assert(lines_view(tail@).reverse() =~= Seq::<Seq<char>>::empty());
    assert(lines_view(out@) + Seq::<Seq<char>>::empty() =~= lines_view(out@));
}

/// The strings joined by two spaces.
fn join_two_spaces(v: &Vec<String>) -> (r: String)
    ensures
        r@ == join2(lines_view(v@)),
{
    let mut r = String::new();
    let mut k: usize = 0;
    while k < v.len()
        invariant
            k <= v@.len(),
            r@ == join2(lines_view(v@.take(k as int))),
        decreases v@.len() - k,
    {
        proof {
            assert(lines_view(v@.take(k + 1)).drop_last() =~= lines_view(v@.take(k as int)));
            assert(lines_view(v@.take(k + 1)).last() == v@[k as int]@);
            if k == 0 {
                assert(lines_view(v@.take(1))[0] == v@[0]@);
            }
        }
        if k > 0 {
            append(&mut r, "  ");
        }
        append(&mut r, v[k].as_str());
        proof {
            if k == 0 {
                assert(r@ =~= v@[0]@);
            }
        }
        k = k + 1;
    }
    assert(v@.take(k as int) =~= v@);
    r
}

/// The UTF-8 length of `c`.
fn utf8_width(c: char) -> (r: u128)
    ensures
        r == utf8_len(c),
{
    let v = c as u32;
    if v < 0x80 {
        1
    } else if v < 0x800 {
        2
    } else if v < 0x10000 {
        3
    } else {
        4
    }
}

/// Byte lengths grow with every character.
proof fn lemma_byte_len_grows(s: Seq<char>, i: int, j: int)
    requires
        0 <= i < j <= s.len(),
    ensures
        byte_len(s.take(i)) < byte_len(s.take(j)),
    decreases j - i,
{
    assert(s.take(j).drop_last() =~= s.take(j - 1));
    if i < j - 1 {
        lemma_byte_len_grows(s, i, j - 1);
    }
}

/// The UTF-8 length of `cs[..k]` for growing `k`, as a `u128`.
fn byte_len_of(cs: &Vec<char>) -> (r: u128)
    ensures
        r == byte_len(cs@),
        r <= 4 * cs@.len(),
{
    let mut acc: u128 = 0;
    let mut k: usize = 0;
    while k < cs.len()
        invariant
            k <= cs@.len(),
            acc == byte_len(cs@.take(k as int)),
            acc <= 4 * k,
        decreases cs@.len() - k,
    {
        assert(cs@.take(k + 1).drop_last() =~= cs@.take(k as int));
        acc = acc + utf8_width(cs[k]);
        k = k + 1;
    }
    assert(cs@.take(k as int) =~= cs@);
    acc
}

/// The number of characters of `cs` that make `target` bytes.
fn char_index_at_byte(cs: &Vec<char>, target: u128) -> (k: usize)
    requires
        char_cut(cs@, target as int) is Some,
    ensures
        k as int == char_cut(cs@, target as int)->0,
{
    let ghost k0 = char_cut(cs@, target as int)->0;
    let mut acc: u128 = 0;
    let mut k: usize = 0;
    assert(byte_len(cs@.take(0)) == 0);
    while acc < target
        invariant
            0 <= k0 <= cs@.len(),
            cs@.len() == cs.len(),
            byte_len(cs@.take(k0)) == target,
            k <= k0,
            acc == byte_len(cs@.take(k as int)),
        decreases k0 - k,
    {
        proof {
            if k == k0 {
                assert(false);
            }
        }
        assert(cs@.take(k + 1).drop_last() =~= cs@.take(k as int));
        proof {
            if k + 1 < k0 {
                lemma_byte_len_grows(cs@, k + 1, k0);
            }
        }
        acc = acc + utf8_width(cs[k]);
        k = k + 1;
    }
    proof {
        if k < k0 {
            lemma_byte_len_grows(cs@, k as int, k0);
        }
    }
    k
}

/// Whether `target` bytes of `cs` end between two characters.
fn has_char_cut(cs: &Vec<char>, target: u128) -> (r: bool)
    ensures
        r == (char_cut(cs@, target as int) is Some),
{
    let mut acc: u128 = 0;
    let mut k: usize = 0;
    assert(cs@.take(0) =~= Seq::<char>::empty());
    while acc < target && k < cs.len()
        invariant
            k <= cs@.len(),
            acc == byte_len(cs@.take(k as int)),
            acc <= 4 * k,
            forall|j: int| 0 <= j < k ==> #[trigger] byte_len(cs@.take(j)) < target,
        decreases cs@.len() - k,
    {
        assert(cs@.take(k + 1).drop_last() =~= cs@.take(k as int));
        acc = acc + utf8_width(cs[k]);
        k = k + 1;
    }
    if acc == target {
        assert(byte_len(cs@.take(k as int)) == target as int);
        true
    } else {
        proof {
            assert forall|j: int| 0 <= j <= cs@.len() implies #[trigger] byte_len(cs@.take(j)) != target as int by {
                if j > k {
                    lemma_byte_len_grows(cs@, k as int, j);
                } else if j == k {
                    if acc < target {
                        assert(k == cs@.len());
                    }
                }
            }
        }
        false
    }
}

/// Whether completing the window's input from `items` cuts it between two
/// characters: see [`completion_fits`].
pub fn completion_fits_now(w: &Window, items: &Vec<DirItem>) -> (r: bool)
    ensures
        r == completion_fits(term_view(*w), items@),
{
    let (_, prefix) = completion_request(w);
    let cands = candidate_list(items, prefix.as_str());
    let ms = sort_strings(cands);
    let lw = last_word_of(w.input_buffer.as_str());
    let lcs = chars_of(lw.as_str());
    if ms.len() != 1 || lcs.len() == 0 {
        return true;
    }
    let cs = chars_of(w.input_buffer.as_str());
    let total = byte_len_of(&cs);
    let wlen = byte_len_of(&lcs);
    if total < wlen {
        proof {
            assert forall|j: int| 0 <= j <= cs@.len() implies #[trigger] byte_len(cs@.take(j)) != byte_len(cs@)
                - byte_len(lcs@) by {
                assert(byte_len(cs@.take(j)) >= 0) by {
                    if j > 0 {
                        lemma_byte_len_grows(cs@, 0, j);
                    }
                    assert(cs@.take(0) =~= Seq::<char>::empty());
                }
            }
        }
        return false;
    }
    has_char_cut(&cs, total - wlen)
}

/// The input completed to `m`: see [`completed_input`].
fn completed(input: &str, m: &str) -> (r: String)
    requires
        last_word(input@).len() > 0 ==> char_cut(input@, byte_len(input@) - byte_len(last_word(input@)))
            is Some,
    ensures
        r@ == completed_input(input@, m@),
{
    let lw = last_word_of(input);
    let lcs = chars_of(lw.as_str());
    if lcs.len() == 0 {
        let mut r = owned(input);
        append(&mut r, m);
        return r;
    }
    let cs = chars_of(input);
    let total = byte_len_of(&cs);
    let wlen = byte_len_of(&lcs);
    proof {
        let k0 = char_cut(input@, byte_len(input@) - byte_len(lw@))->0;
        assert(0 <= k0 <= input@.len());
        if k0 > 0 {
            lemma_byte_len_grows(input@, 0, k0);
        }
        assert(input@.take(0) =~= Seq::<char>::empty());
        if k0 < input@.len() {
            lemma_byte_len_grows(input@, k0, input@.len() as int);
        }
        assert(input@.take(input@.len() as int) =~= input@);
    }
    let k = char_index_at_byte(&cs, total - wlen);
    let mut r = string_from_chars(&cs, 0, k);
    append(&mut r, m);
    assert(r@ =~= completed_input(input@, m@));
    r
}

/// The folder listing for a Tab arrived: see [`after_completion`].
pub fn complete(w: &mut Window, items: &Vec<DirItem>)
    requires
        completion_fits(term_view(*old(w)), items@),
    ensures
        term_view(*final(w)) == after_completion(
            term_view(*old(w)),
            sort_strs(candidates(items@, completion_prefix(old(w).input_buffer@))),
        ),
        editor_only(*old(w), *final(w)),
{
    let (_, prefix) = completion_request(w);
    let cands = candidate_list(items, prefix.as_str());
    let ms = sort_strings(cands);
    if ms.len() == 1 {
        let s = completed(w.input_buffer.as_str(), ms[0].as_str());
        w.input_buffer = s;
    } else if ms.len() > 1 {
        let mut line = owned("user@trimangees:~$ ");
        append(&mut line, w.input_buffer.as_str());
        let joined = join_two_spaces(&ms);
        let ghost o = lines_view(w.output_lines@);
        w.output_lines.push(line);
        w.output_lines.push(joined);
        w.output_lines.push(String::new());
        assert(lines_view(w.output_lines@) =~= o + seq![prompt(old(w).input_buffer@), join2(lines_view(ms@)), Seq::<char>::empty()]);
    }
}

} // verus!

verus! {

/// Up then Down, from a recalled command that has an older one, comes back
/// to the same command.
pub proof fn lemma_older_then_newer(t: TermView)
    requires
        t.history_index matches Some(i) && 0 < i < t.history.len(),
        t.input == t.history[t.history_index->0 as int],
    ensures
        recalled_newer(recalled_older(t)) == t,
{
}

/// No entry of `h` repeats the one before it.
pub open spec fn no_repeats(h: Seq<Seq<char>>) -> bool {
    forall|k: int, m: int| 0 <= k && k + 1 == m && m < h.len() ==> #[trigger] h[k] != #[trigger] h[m]
}

/// Enter never puts the same command twice in a row into the history, and
/// leaves the input empty and the history position reset.
pub proof fn lemma_submit_no_repeat(t: TermView)
    requires
        no_repeats(t.history),
    ensures
        no_repeats(submitted(t).history),
        submitted(t).input.len() == 0,
        submitted(t).history_index is None,
{
    let h = submitted(t).history;
    assert forall|k: int, m: int| 0 <= k && k + 1 == m && m < h.len() implies #[trigger] h[k] != #[trigger] h[m] by {
        if h.len() > t.history.len() && m == h.len() - 1 {
            assert(h[k] == t.history.last());
        } else {
            assert(h[k] == t.history[k] && h[m] == t.history[m]);
        }
    }
}

/// The colour a line of terminal output is drawn in, by how it starts:
/// prompts green, errors red, exit codes dull red, warnings yellow, paths
/// blue, `ls -l` listings grey, anything else light grey.
pub open spec fn line_colour(l: Seq<char>) -> Seq<u8> {
    if starts_with(l, "user@trimangees"@) {
        seq![60u8, 200u8, 80u8]
    } else if starts_with(l, "stderr:"@) || starts_with(l, "error:"@) {
        seq![220u8, 75u8, 75u8]
    } else if starts_with(l, "exit code:"@) {
        seq![160u8, 85u8, 85u8]
    } else if starts_with(l, "warning"@) || starts_with(l, "Warning"@) {
        seq![220u8, 175u8, 50u8]
    } else if l.len() > 0 && (l[0] == '/' || l[0] == '~') {
        seq![100u8, 160u8, 255u8]
    } else if starts_with(l, "total "@) || starts_with(l, "drwx"@) || starts_with(l, "-rw"@) {
        seq![140u8, 145u8, 185u8]
    } else {
        seq![188u8, 192u8, 228u8]
    }
}

/// The colour of a line of terminal output: see [`line_colour`].
pub fn terminal_line_colour(line: &str) -> (r: [u8; 3])
    ensures
        r@ == line_colour(line@),
{
    let cs = chars_of(line);
    let r: [u8; 3] = if has_prefix(line, "user@trimangees") {
        [60, 200, 80]
    } else if has_prefix(line, "stderr:") || has_prefix(line, "error:") {
        [220, 75, 75]
    } else if has_prefix(line, "exit code:") {
        [160, 85, 85]
    } else if has_prefix(line, "warning") || has_prefix(line, "Warning") {
        [220, 175, 50]
    } else if cs.len() > 0 && (cs[0] == '/' || cs[0] == '~') {
        [100, 160, 255]
    } else if has_prefix(line, "total ") || has_prefix(line, "drwx") || has_prefix(line, "-rw") {
        [140, 145, 185]
    } else {
        [188, 192, 228]
    };
    assert(r@ =~= line_colour(line@));
    r
}

/// The command after the prompt, when `line` echoes one: the display
/// server draws the prompt and the command in their own colours.
pub fn prompt_command(line: &str) -> (r: Option<String>)
    ensures
        match r {
            Some(rest) => starts_with(line@, "user@trimangees:~$ "@) && rest@ == line@.skip(
                "user@trimangees:~$ "@.len() as int,
            ),
            None => !starts_with(line@, "user@trimangees:~$ "@),
        },
{
    let prompt = "user@trimangees:~$ ";
    if has_prefix(line, prompt) {
        let cs = chars_of(line);
        let n = chars_of(prompt).len();
        let rest = string_from_chars(&cs, n, cs.len());
        assert(rest@ =~= line@.skip(prompt@.len() as int));
        Some(rest)
    } else {
        None
    }
}

/// How many 16-pixel lines of output fit in a terminal view from `y0` to
/// `y1`, with 6 pixels of padding above and below: at least one.
pub open spec fn lines_fitting(y0: int, y1: int) -> int {
    let room = if y1 >= y0 + 12 {
        y1 - (y0 + 12)
    } else {
        0
    };
    if room / 16 >= 1 {
        room / 16
    } else {
        1
    }
}

/// The output lines a terminal view from `y0` to `y1` shows, as a range of
/// indices: as many as fit, ending `scroll` lines before the last.
pub open spec fn shown_range(total: int, y0: int, y1: int, scroll: int) -> (int, int) {
    let visible = lines_fitting(y0, y1);
    (
        if total >= visible + scroll {
            total - (visible + scroll)
        } else {
            0
        },
        if total >= scroll {
            total - scroll
        } else {
            0
        },
    )
}

/// The range of the `total` output lines a terminal view from `y0` to `y1`
/// shows, scrolled back by `scroll` lines.
pub fn visible_lines(total: usize, y0: usize, y1: usize, scroll: usize) -> (r: (usize, usize))
    requires
        y0 + 12 <= usize::MAX,
        lines_fitting(y0 as int, y1 as int) + scroll <= usize::MAX,
    ensures
        r.0 as int == shown_range(total as int, y0 as int, y1 as int, scroll as int).0,
        r.1 as int == shown_range(total as int, y0 as int, y1 as int, scroll as int).1,
        r.0 <= r.1 <= total,
{
    let room = y1.saturating_sub(y0 + 12);
    let visible = if room / 16 >= 1 {
        room / 16
    } else {
        1
    };
    let start = total.saturating_sub(visible + scroll);
    let end = total.saturating_sub(scroll);
    (start, if end < total { end } else { total })
}

} // verus!
