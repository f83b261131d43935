use vstd::prelude::*;

use crate::command_type::CommandType;
use crate::text::{
    chars_of, line_split, lines, parse_usize, parse_usize_spec, split_words,
    str_eq, strings_view, strip_comment, strip_comment_chars, trim_cr, words,
};

verus! {

/// One command of a `.vm` file: the words of its line.
pub struct VmCommand {
    vm_commands: Vec<String>,
}

impl View for VmCommand {
    type V = Seq<Seq<char>>;

    closed spec fn view(&self) -> Seq<Seq<char>> {
        strings_view(self.vm_commands@)
    }
}

/// The kind of a command with words `w`, decided by its first word.
pub open spec fn command_type_of(w: Seq<Seq<char>>) -> Option<CommandType> {
    let first = w[0];
    if first == "add"@ || first == "sub"@ || first == "neg"@ || first == "eq"@ || first == "gt"@
        || first == "lt"@ || first == "and"@ || first == "or"@ || first == "not"@ {
        Some(CommandType::CArithmetic)
    } else if first == "push"@ {
        Some(CommandType::CPush)
    } else if first == "pop"@ {
        Some(CommandType::CPop)
    } else if first == "label"@ {
        Some(CommandType::CLabel)
    } else if first == "goto"@ {
        Some(CommandType::CGoto)
    } else if first == "if-goto"@ {
        Some(CommandType::CIf)
    } else if first == "function"@ {
        Some(CommandType::CFunction)
    } else if first == "call"@ {
        Some(CommandType::CCall)
    } else if first == "return"@ {
        Some(CommandType::CReturn)
    } else {
        None
    }
}

/// The first argument of a command: the command itself for an arithmetic command,
/// else its second word.
pub open spec fn arg1_of(w: Seq<Seq<char>>) -> Seq<char> {
    if command_type_of(w) == Some(CommandType::CArithmetic) {
        w[0]
    } else {
        w[1]
    }
}

impl VmCommand {
    /// A command made of the given words.
    pub fn new(vm_commands: Vec<String>) -> (r: Self)
        ensures
            r@ == strings_view(vm_commands@),
    {
        VmCommand { vm_commands: vm_commands }
    }

    /// The kind of this command, `None` where its first word names none.
    pub fn command_type(&self) -> (r: Option<CommandType>)
        requires
            self@.len() > 0,
        ensures
            r == command_type_of(self@),
    {
        let first: &str = self.vm_commands[0].as_str();
        assert(first@ == self@[0]);
        if str_eq(first, "add") || str_eq(first, "sub") || str_eq(first, "neg") || str_eq(
            first,
            "eq",
        ) || str_eq(first, "gt") || str_eq(first, "lt") || str_eq(first, "and") || str_eq(
            first,
            "or",
        ) || str_eq(first, "not") {
            return Some(CommandType::CArithmetic);
        }
        if str_eq(first, "push") {
            return Some(CommandType::CPush);
        }
        if str_eq(first, "pop") {
            return Some(CommandType::CPop);
        }
        if str_eq(first, "label") {
            return Some(CommandType::CLabel);
        }
        if str_eq(first, "goto") {
            return Some(CommandType::CGoto);
        }
        if str_eq(first, "if-goto") {
            return Some(CommandType::CIf);
        }
        if str_eq(first, "function") {
            return Some(CommandType::CFunction);
        }
        if str_eq(first, "call") {
            return Some(CommandType::CCall);
        }
        if str_eq(first, "return") {
            return Some(CommandType::CReturn);
        }
        None
    }

    /// The first argument: the command itself for an arithmetic command, else the
    /// second word.
    pub fn arg1(&self) -> (r: &String)
        requires
            self@.len() > 0,
            command_type_of(self@) is Some,
            command_type_of(self@) != Some(CommandType::CArithmetic) ==> self@.len() >= 2,
        ensures
            r@ == arg1_of(self@),
    {
        if self.command_type() == Some(CommandType::CArithmetic) {
            &self.vm_commands[0]
        } else {
            &self.vm_commands[1]
        }
    }

    /// The second argument: the third word.
    pub fn arg2(&self) -> (r: &String)
        requires
            self@.len() >= 3,
        ensures
            r@ == self@[2],
    {
        &self.vm_commands[2]
    }
}

/// The commands of the lines `ls`: the words of each line's text before `//`, for
/// each line where that text is not empty, in order.
pub open spec fn parse_lines(ls: Seq<Seq<char>>) -> Seq<Seq<Seq<char>>>
    decreases ls.len(),
{
    if ls.len() == 0 {
        seq![]
    } else {
        let rest = parse_lines(ls.drop_last());
        let body = strip_comment(ls.last());
        if body.len() == 0 {
            rest
        } else {
            rest.push(words(body))
        }
    }
}

/// The commands of a `.vm` text.
pub open spec fn parse_spec(text: Seq<char>) -> Seq<Seq<Seq<char>>> {
    parse_lines(lines(text))
}

/// The views of a sequence of commands.
pub open spec fn commands_view(v: Seq<VmCommand>) -> Seq<Seq<Seq<char>>> {
    v.map_values(|c: VmCommand| c@)
}

/// The command of one line, `None` where the line holds nothing before `//`.
fn parse_line(line: &Vec<char>) -> (r: Option<VmCommand>)
    ensures
        strip_comment(line@).len() == 0 ==> r is None,
        strip_comment(line@).len() > 0 ==> (r matches Some(c) && c@ == words(strip_comment(line@))),
{
    let body = strip_comment_chars(line);
    if body.len() == 0 {
        None
    } else {
        Some(VmCommand::new(split_words(&body)))
    }
}

/// `line` without one trailing carriage return.
fn trim_cr_chars(line: Vec<char>) -> (r: Vec<char>)
    ensures
        r@ == trim_cr(line@),
{
    let mut line = line;
    if line.len() > 0 && line[line.len() - 1] == '\r' {
        line.pop();
    }
    line
}

/// The commands of a `.vm` text: each line loses what follows its first `//`; the
/// lines with nothing left are dropped; each other line becomes the command of its
/// whitespace-separated words.
pub fn parse(text: &str) -> (r: Vec<VmCommand>)
    ensures
        commands_view(r@) == parse_spec(text@),
{
    let cs = chars_of(text);
    let mut out: Vec<VmCommand> = Vec::new();
    let mut cur: Vec<char> = Vec::new();
    let ghost mut done: Seq<Seq<char>> = seq![];
    let mut i: usize = 0;
    while i < cs.len()
        invariant
            cs@ == text@,
            i <= cs@.len(),
            line_split(cs@.take(i as int)) == (done, cur@),
            commands_view(out@) == parse_lines(done),
        decreases cs@.len() - i,
    {
        let c = cs[i];
        assert(cs@.take(i + 1).drop_last() == cs@.take(i as int));
        if c == '\n' {
            let line = trim_cr_chars(cur);
            let ghost before = out@;
            let ghost old_done = done;
            proof {
                done = done.push(line@);
            }
            assert(done.drop_last() == old_done);
            match parse_line(&line) {
                Some(cmd) => {
                    out.push(cmd);
                    assert(commands_view(out@) =~= commands_view(before).push(cmd@));
                },
                None => {},
            }
            cur = Vec::new();
        } else {
            cur.push(c);
        }
        i = i + 1;
    }
    assert(cs@.take(i as int) == cs@);
    if cur.len() > 0 {
        let ghost before = out@;
        let ghost all = done.push(cur@);
        assert(all.drop_last() == done);
        match parse_line(&cur) {
            Some(cmd) => {
                out.push(cmd);
                assert(commands_view(out@) =~= commands_view(before).push(cmd@));
            },
            None => {},
        }
    }
    out
}

/// Why a command cannot be translated.
#[derive(Clone, Copy, Debug, PartialEq, Eq, Structural)]
pub enum CommandError {
    /// The command has `len` words and the word at `index` is needed.
    MissingWord { len: usize, index: usize },
    /// The first word names no command.
    UnknownCommand,
    /// The third word of a command of this kind is not a `usize`.
    InvalidNumber(CommandType),
}

/// What stops the translation of a command with words `w`, in the order in which
/// the translator reads its words; `Ok` where nothing does.
pub open spec fn check_spec(w: Seq<Seq<char>>) -> Result<(), CommandError> {
    if w.len() == 0 {
        Err(CommandError::MissingWord { len: 0, index: 0 })
    } else {
        match command_type_of(w) {
            None => Err(CommandError::UnknownCommand),
            Some(t) => match t {
                CommandType::CArithmetic | CommandType::CReturn => Ok(()),
                CommandType::CLabel | CommandType::CGoto | CommandType::CIf => {
                    if w.len() < 2 {
                        Err(CommandError::MissingWord { len: w.len() as usize, index: 1 })
                    } else {
                        Ok(())
                    }
                },
                _ => {
                    if w.len() < 3 {
                        Err(
                            CommandError::MissingWord {
                                len: w.len() as usize,
                                index: w.len() as usize,
                            },
                        )
                    } else if parse_usize_spec(w[2]) is None {
                        Err(CommandError::InvalidNumber(t))
                    } else {
                        Ok(())
                    }
                },
            },
        }
    }
}

/// Whether the command with words `w` can be translated.
pub open spec fn well_formed(w: Seq<Seq<char>>) -> bool {
    check_spec(w) is Ok
}

/// Whether every command of `cmds` can be translated.
pub open spec fn all_well_formed(cmds: Seq<Seq<Seq<char>>>) -> bool {
    forall|k: int| 0 <= k < cmds.len() ==> well_formed(#[trigger] cmds[k])
}

/// The first reason, if any, why a command cannot be translated.
pub fn check_command(cmd: &VmCommand) -> (r: Result<(), CommandError>)
    ensures
        r == check_spec(cmd@),
{
    let len = cmd.vm_commands.len();
    if len == 0 {
        return Err(CommandError::MissingWord { len: 0, index: 0 });
    }
    match cmd.command_type() {
        None => Err(CommandError::UnknownCommand),
        Some(t) => match t {
            CommandType::CArithmetic | CommandType::CReturn => Ok(()),
            CommandType::CLabel | CommandType::CGoto | CommandType::CIf => {
                if len < 2 {
                    Err(CommandError::MissingWord { len: len, index: 1 })
                } else {
                    Ok(())
                }
            },
            _ => {
                if len < 3 {
                    Err(CommandError::MissingWord { len: len, index: len })
                } else if parse_usize(cmd.arg2().as_str()).is_none() {
                    Err(CommandError::InvalidNumber(t))
                } else {
                    Ok(())
                }
            },
        },
    }
}

/// The first command, by its position in `cmds`, that cannot be translated, with
/// the reason; `Ok` where every command can be.
pub fn check_commands(cmds: &Vec<VmCommand>) -> (r: Result<(), (usize, CommandError)>)
    ensures
        r is Ok <==> all_well_formed(commands_view(cmds@)),
        r matches Err((k, e)) ==> {
            &&& k < cmds@.len()
            &&& check_spec(cmds@[k as int]@) == Err::<(), CommandError>(e)
            &&& forall|j: int| 0 <= j < k ==> well_formed(#[trigger] cmds@[j]@)
        },
{
    let mut k: usize = 0;
    while k < cmds.len()
        invariant
            k <= cmds@.len(),
            forall|j: int| 0 <= j < k ==> well_formed(#[trigger] cmds@[j]@),
        decreases cmds@.len() - k,
    {
        match check_command(&cmds[k]) {
            Ok(()) => {},
            Err(e) => {
                assert(!well_formed(commands_view(cmds@)[k as int]));
                return Err((k, e));
            },
        }
        k = k + 1;
    }
    assert forall|j: int| 0 <= j < commands_view(cmds@).len() implies well_formed(
        #[trigger] commands_view(cmds@)[j],
    ) by {
        assert(well_formed(cmds@[j]@));
    }
    Ok(())
}

} // verus!
