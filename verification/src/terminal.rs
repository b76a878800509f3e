//! The terminal application: parsing a command line into a command and its
//! arguments, and dispatching it to the shell.
use vstd::prelude::*;
use crate::explorer_state::HostEnv;
use crate::shell::{ShellApi, Shell, launched, opens_window};
use crate::text::{owned, split_words, str_eq, words};

verus! {

/// A command line split into its command and arguments.
pub struct ParsedCommand {
    pub command: String,
    pub arguments: Vec<String>,
}

/// The plain values of a list of strings.
pub open spec fn arg_views(v: Seq<String>) -> Seq<Seq<char>> {
    v.map_values(|s: String| s@)
}

/// Splits a command line at white space: the first word is the command,
/// the others its arguments; a blank line gives an empty command.
pub fn parse(input: &str) -> (r: ParsedCommand)
    ensures
        r.command@ == if words(input@).len() == 0 {
            Seq::<char>::empty()
        } else {
            words(input@)[0]
        },
        arg_views(r.arguments@) == if words(input@).len() == 0 {
            Seq::<Seq<char>>::empty()
        } else {
            words(input@).skip(1)
        },
{
    let mut ws = split_words(input);
    if ws.len() == 0 {
        return ParsedCommand { command: String::new(), arguments: Vec::new() };
    }
    let ghost all = ws@;
    let command = ws.remove(0);
    assert(ws@ =~= all.skip(1));
    assert(arg_views(ws@) =~= arg_views(all).skip(1));
    ParsedCommand { command, arguments: ws }
}

/// Whether dispatching `command` with `args` on shell `s` opens a window:
/// the command is `open` and its first argument names an installed
/// application.
pub open spec fn dispatch_opens(s: Shell, command: Seq<char>, args: Seq<Seq<char>>) -> bool {
    command == "open"@ && args.len() > 0 && opens_window(s, args[0])
}

/// Whether running command line `input` on shell `s` opens a window.
pub open spec fn line_opens(s: Shell, input: Seq<char>) -> bool {
    let ws = words(input);
    ws.len() > 1 && dispatch_opens(s, ws[0], ws.skip(1))
}

/// The lines the terminal prints for `help`.
pub open spec fn help_lines() -> Seq<Seq<char>> {
    seq!["Commands:"@, "open"@, "help"@]
}

/// Runs parsed commands against a shell.
pub struct CommandDispatcher {
    api: ShellApi,
}

/// What dispatching `parsed` does to the shell and prints: `help` lists the
/// commands; `open` launches the application named by its first argument,
/// or asks what to open when there is none; anything else is unknown.
pub open spec fn dispatched(
    before: Shell,
    after: Shell,
    command: Seq<char>,
    args: Seq<Seq<char>>,
    env: &HostEnv,
    out: Seq<Seq<char>>,
) -> bool {
    if command == "help"@ {
        after == before && out == help_lines()
    } else if command == "open"@ {
        if args.len() == 0 {
            after == before && out == seq!["Open what?"@]
        } else {
            out.len() == 1 && launched(before, after, args[0], env, out[0])
        }
    } else {
        after == before && out == seq!["Unknown command."@]
    }
}

impl CommandDispatcher {
    /// The shell the dispatcher runs commands on.
    pub closed spec fn shell(&self) -> Shell {
        self.api.shell()
    }

    /// A dispatcher for a new shell.
    pub fn new() -> (r: Self)
        ensures
            r.shell().window_manager.windows@.len() == 0,
            r.shell().window_manager.next_id == 1,
    {
        CommandDispatcher { api: ShellApi::new() }
    }

    /// The id the shell's next window gets.
    pub fn next_window_id(&self) -> (r: u32)
        ensures
            r == self.shell().window_manager.next_id,
    {
        self.api.next_window_id()
    }

    /// Runs a parsed command; returns the lines to print.
    pub fn dispatch(&mut self, parsed: ParsedCommand, env: &HostEnv) -> (out: Vec<String>)
        requires
            dispatch_opens(old(self).shell(), parsed.command@, arg_views(parsed.arguments@))
                ==> old(self).shell().window_manager.next_id < u32::MAX,
        ensures
            dispatched(
                old(self).shell(),
                final(self).shell(),
                parsed.command@,
                arg_views(parsed.arguments@),
                env,
                arg_views(out@),
            ),
    {
        let mut out: Vec<String> = Vec::new();
        if str_eq(parsed.command.as_str(), "help") {
            out.push(owned("Commands:"));
            out.push(owned("open"));
            out.push(owned("help"));
            assert(arg_views(out@) =~= help_lines());
        } else if str_eq(parsed.command.as_str(), "open") {
            if parsed.arguments.len() == 0 {
                out.push(owned("Open what?"));
                assert(arg_views(out@) =~= seq!["Open what?"@]);
            } else {
                let msg = self.api.launch_app(parsed.arguments[0].as_str(), env);
                out.push(msg);
            }
        } else {
            out.push(owned("Unknown command."));
            assert(arg_views(out@) =~= seq!["Unknown command."@]);
        }
        out
    }
}

/// The terminal: reads command lines and runs them.
pub struct Terminal {
    dispatcher: CommandDispatcher,
}

impl Terminal {
    /// The shell the terminal runs commands on.
    pub closed spec fn shell(&self) -> Shell {
        self.dispatcher.shell()
    }

    /// A terminal on a new shell.
    pub fn new() -> (r: Self)
        ensures
            r.shell().window_manager.windows@.len() == 0,
            r.shell().window_manager.next_id == 1,
    {
        Terminal { dispatcher: CommandDispatcher::new() }
    }

    /// The id the shell's next window gets: a command line that opens a
    /// window may be run while it is below `u32::MAX`.
    pub fn next_window_id(&self) -> (r: u32)
        ensures
            r == self.shell().window_manager.next_id,
    {
        self.dispatcher.next_window_id()
    }

    /// Whether running command line `input` opens a window.
    pub fn opens_window(&self, input: &str) -> (r: bool)
        ensures
            r == line_opens(self.shell(), input@),
    {
        let parsed = parse(input);
        proof {
            reveal_strlit("open");
        }
        if str_eq(parsed.command.as_str(), "open") && parsed.arguments.len() > 0 {
            let ghost ws = words(input@);
            assert(arg_views(parsed.arguments@).len() == parsed.arguments@.len());
            assert(arg_views(parsed.arguments@)[0] == parsed.arguments@[0]@);
            assert(ws.len() > 0) by {
                assert("open"@.len() == 4);
            }
            assert(ws.skip(1).len() > 0);
            assert(ws.skip(1)[0] == parsed.arguments@[0]@);
            self.dispatcher.api.finds_app(parsed.arguments[0].as_str())
        } else {
            false
        }
    }

    /// Parses and runs one command line; returns the lines to print.
    pub fn run_command(&mut self, input: &str, env: &HostEnv) -> (out: Vec<String>)
        requires
            line_opens(old(self).shell(), input@) ==> old(self).shell().window_manager.next_id
                < u32::MAX,
        ensures
            ({
                let ws = words(input@);
                let command = if ws.len() == 0 { Seq::<char>::empty() } else { ws[0] };
                let args = if ws.len() == 0 { Seq::<Seq<char>>::empty() } else { ws.skip(1) };
                dispatched(old(self).shell(), final(self).shell(), command, args, env, arg_views(out@))
            }),
    {
        let parsed = parse(input);
        self.dispatcher.dispatch(parsed, env)
    }
}

/// Only `open` with an application named changes the shell: it launches the
/// first argument, once, and the terminal prints the one line the launch
/// reports; every other command line (blank, `help`, `open` alone, unknown)
/// leaves the shell as it was and only prints.
pub proof fn lemma_only_open_changes_the_shell(
    before: Shell,
    after: Shell,
    command: Seq<char>,
    args: Seq<Seq<char>>,
    env: &HostEnv,
    out: Seq<Seq<char>>,
)
    requires
        dispatched(before, after, command, args, env, out),
    ensures
        command == "open"@ && args.len() > 0 ==> out.len() == 1 && launched(before, after, args[0], env, out[0]),
        !(command == "open"@ && args.len() > 0) ==> after == before,
{
    reveal_strlit("help");
    reveal_strlit("open");
    assert("help"@ != "open"@) by {
        assert("help"@[0] != "open"@[0]);
    }
}

} // verus!
