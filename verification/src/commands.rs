//! A tiny command-line dispatcher with a table of named commands.
use vstd::prelude::*;
use crate::text::{chars_of, views};
use vstd::string::StringExecFns;

verus! {

/// The commands of the tool.
#[derive(Clone, Copy, PartialEq, Eq, Structural, Debug)]
pub enum CommandKind {
    Hello,
    Help,
}

/// The commands in table order.
pub open spec fn command_table() -> Seq<CommandKind> {
    seq![CommandKind::Hello, CommandKind::Help]
}

pub open spec fn spec_name(k: CommandKind) -> Seq<char> {
    match k {
        CommandKind::Hello => "hello"@,
        CommandKind::Help => "help"@,
    }
}

pub open spec fn spec_description(k: CommandKind) -> Seq<char> {
    match k {
        CommandKind::Hello => "print hello"@,
        CommandKind::Help => "Print this help messsage"@,
    }
}

/// The command table, in order.
pub fn commands() -> (v: Vec<CommandKind>)
    ensures
        v@ == command_table(),
{
    vec![CommandKind::Hello, CommandKind::Help]
}

/// The name under which a command is invoked.
pub fn command_name(k: CommandKind) -> (s: &'static str)
    ensures
        s@ == spec_name(k),
{
    match k {
        CommandKind::Hello => "hello",
        CommandKind::Help => "help",
    }
}

/// The one-line description of a command.
pub fn command_description(k: CommandKind) -> (s: &'static str)
    ensures
        s@ == spec_description(k),
{
    match k {
        CommandKind::Hello => "print hello",
        CommandKind::Help => "Print this help messsage",
    }
}

fn same_chars(a: &Vec<char>, b: &Vec<char>) -> (r: bool)
    ensures
        r == (a@ == b@),
{
    if a.len() != b.len() {
        return false;
    }
    let mut i: usize = 0;
    while i < a.len()
        invariant
            i <= a.len() == b.len(),
            forall|k: int| 0 <= k < i ==> a@[k] == b@[k],
        decreases a.len() - i,
    {
        if a[i] != b[i] {
            return false;
        }
        i += 1;
    }
    assert(a@ =~= b@);
    true
}

/// The first command of the table whose name is `name`, if any.
pub open spec fn find_spec(name: Seq<char>) -> Option<CommandKind> {
    if name == spec_name(CommandKind::Hello) {
        Some(CommandKind::Hello)
    } else if name == spec_name(CommandKind::Help) {
        Some(CommandKind::Help)
    } else {
        None
    }
}

/// The command named `name`, if the table has one.
pub fn find_command(name: &str) -> (r: Option<CommandKind>)
    ensures
        r == find_spec(name@),
{
    let n = chars_of(name);
    if same_chars(&n, &chars_of(command_name(CommandKind::Hello))) {
        Some(CommandKind::Hello)
    } else if same_chars(&n, &chars_of(command_name(CommandKind::Help))) {
        Some(CommandKind::Help)
    } else {
        None
    }
}

/// Every command is found under its own name.
pub proof fn lemma_find_own_name(k: CommandKind)
    ensures
        find_spec(spec_name(k)) == Some(k),
{
    reveal_strlit("hello");
    reveal_strlit("help");
    if k == CommandKind::Help {
        assert(spec_name(CommandKind::Help).len() != spec_name(CommandKind::Hello).len());
    }
}

/// What a command prints and how it ends.
pub struct CommandOutput {
    /// Lines for standard output.
    pub stdout: Vec<String>,
    /// Lines for standard error.
    pub stderr: Vec<String>,
    /// Whether the command ends successfully.
    pub success: bool,
}

/// `name - description`.
pub open spec fn entry_line(k: CommandKind) -> Seq<char> {
    spec_name(k) + " - "@ + spec_description(k)
}

/// The usage text: the invocation form, then one indented line per command.
pub open spec fn usage_spec(program: Seq<char>) -> Seq<Seq<char>> {
    seq![
        "Usage: "@ + program + " <command>"@,
        "Commands:"@,
        "    "@ + entry_line(CommandKind::Hello),
        "    "@ + entry_line(CommandKind::Help),
    ]
}

fn entry_string(prefix: &str, k: CommandKind) -> (s: String)
    ensures
        s@ == prefix@ + entry_line(k),
{
    let mut s = String::from_str(prefix);
    s.append(command_name(k));
    s.append(" - ");
    s.append(command_description(k));
    s
}

/// The usage text, for standard error.
pub fn usage(program: &str) -> (lines: Vec<String>)
    ensures
        views(lines@) == usage_spec(program@),
{
    let mut first = String::from_str("Usage: ");
    first.append(program);
    first.append(" <command>");
    let mut lines: Vec<String> = Vec::new();
    lines.push(first);
    lines.push(String::from_str("Commands:"));
    let table = commands();
    let mut i: usize = 0;
    while i < table.len()
        invariant
            i <= table.len(),
            table@ == command_table(),
            views(lines@) == usage_spec(program@).take(2 + i),
        decreases table.len() - i,
    {
        let ghost prev = lines@;
        let line = entry_string("    ", table[i]);
        lines.push(line);
        assert(views(lines@) =~= views(prev).push(line@));
        assert(usage_spec(program@)[2 + i] == "    "@ + entry_line(table@[i as int]));
        assert(usage_spec(program@).take(2 + i + 1) =~= usage_spec(program@).take(2 + i).push(
            usage_spec(program@)[2 + i],
        ));
        i += 1;
    }
    assert(usage_spec(program@).take(4) =~= usage_spec(program@));
    lines
}

/// `hello`: greets on standard output.
pub fn hello_command(program: &str) -> (r: CommandOutput)
    ensures
        views(r.stdout@) == seq!["Hello, World"@],
        r.stderr@.len() == 0,
        r.success,
{
    let mut stdout: Vec<String> = Vec::new();
    stdout.push(String::from_str("Hello, World"));
    assert(views(stdout@) =~= seq!["Hello, World"@]);
    CommandOutput { stdout, stderr: Vec::new(), success: true }
}

/// `help [command]`: the entry of the named command, an error for an unknown
/// one, or the usage text when no command is named.
pub fn help_command(program: &str, command_name_arg: Option<&str>) -> (r: CommandOutput)
    ensures
        match command_name_arg {
            Some(name) => match find_spec(name@) {
                Some(k) => views(r.stdout@) == seq![entry_line(k)] && r.stderr@.len() == 0
                    && r.success,
                None => r.stdout@.len() == 0 && views(r.stderr@) == seq![
                    "ERROR: command "@ + name@ + " is not found"@,
                ] && !r.success,
            },
            None => r.stdout@.len() == 0 && views(r.stderr@) == usage_spec(program@)
                && r.success,
        },
{
    match command_name_arg {
        Some(name) => match find_command(name) {
            Some(k) => {
                let mut stdout: Vec<String> = Vec::new();
                stdout.push(entry_string("", k));
                assert(views(stdout@) =~= seq![""@ + entry_line(k)]);
                proof {
                    reveal_strlit("");
                    assert(""@ + entry_line(k) =~= entry_line(k));
                }
                CommandOutput { stdout, stderr: Vec::new(), success: true }
            },
            None => {
                let mut line = String::from_str("ERROR: command ");
                line.append(name);
                line.append(" is not found");
                let mut stderr: Vec<String> = Vec::new();
                stderr.push(line);
                assert(views(stderr@) =~= seq!["ERROR: command "@ + name@ + " is not found"@]);
                CommandOutput { stdout: Vec::new(), stderr, success: false }
            },
        },
        None => {
            let stderr = usage(program);
            CommandOutput { stdout: Vec::new(), stderr, success: true }
        },
    }
}

/// Runs the command named `command`, handing it the next argument; the tool
/// ends successfully whenever the command exists, whatever the command's own
/// outcome, and unsuccessfully, printing nothing, otherwise.
pub fn run_command(program: &str, command: &str, next_arg: Option<&str>) -> (r: CommandOutput)
    ensures
        find_spec(command@) is None ==> r.stdout@.len() == 0 && r.stderr@.len() == 0
            && !r.success,
        find_spec(command@) == Some(CommandKind::Hello) ==> views(r.stdout@) == seq![
            "Hello, World"@,
        ] && r.stderr@.len() == 0 && r.success,
        find_spec(command@) == Some(CommandKind::Help) ==> r.success && ({
            let h = help_spec_output(program@, next_arg);
            views(r.stdout@) == h.0 && views(r.stderr@) == h.1
        }),
{
    match find_command(command) {
        None => CommandOutput { stdout: Vec::new(), stderr: Vec::new(), success: false },
        Some(CommandKind::Hello) => hello_command(program),
        Some(CommandKind::Help) => {
            let out = help_command(program, next_arg);
            CommandOutput { stdout: out.stdout, stderr: out.stderr, success: true }
        },
    }
}

/// The lines `help` prints: standard output, then standard error.
pub open spec fn help_spec_output(program: Seq<char>, arg: Option<&str>) -> (
    Seq<Seq<char>>,
    Seq<Seq<char>>,
) {
    match arg {
        Some(name) => match find_spec(name@) {
            Some(k) => (seq![entry_line(k)], Seq::empty()),
            None => (Seq::empty(), seq!["ERROR: command "@ + name@ + " is not found"@]),
        },
        None => (Seq::empty(), usage_spec(program)),
    }
}

} // verus!
