//! A translator from the stack-based VM language of the Hack platform to Hack
//! assembly.
pub mod code_writer;
pub mod command_type;
pub mod laws;
pub mod parser;
pub mod text;

use vstd::prelude::*;

use crate::code_writer::{code_write, file_code, init, init_code};
use crate::parser::{all_well_formed, parse, parse_spec};

verus! {

/// One `.vm` source: the name its static variables and labels are qualified by
/// (the file name without `.vm`), and its text.
pub struct VmFile {
    pub name: String,
    pub text: String,
}

/// The names and texts of a sequence of sources.
pub open spec fn files_view(files: Seq<VmFile>) -> Seq<(Seq<char>, Seq<char>)> {
    files.map_values(|f: VmFile| (f.name@, f.text@))
}

/// The code of the sources `files`, one after the other.
pub open spec fn files_code(files: Seq<(Seq<char>, Seq<char>)>) -> Seq<char>
    decreases files.len(),
{
    if files.len() == 0 {
        seq![]
    } else {
        files_code(files.drop_last()) + file_code(parse_spec(files.last().1), files.last().0)
    }
}

/// Whether every command of every source can be translated.
pub open spec fn files_well_formed(files: Seq<(Seq<char>, Seq<char>)>) -> bool {
    forall|i: int| 0 <= i < files.len() ==> all_well_formed(parse_spec(#[trigger] files[i].1))
}

/// The assembly program for the sources `files`: the bootstrap code unless
/// `no_init_option`, then the code of each source in turn.
pub open spec fn translation(files: Seq<(Seq<char>, Seq<char>)>, no_init_option: bool) -> Seq<
    char,
> {
    (if no_init_option {
        seq![]
    } else {
        init_code()
    }) + files_code(files)
}

/// Translates the sources `files`, in order, into one assembly program; it starts
/// with the bootstrap code unless `no_init_option`.
pub fn vm_translator(files: &Vec<VmFile>, no_init_option: bool) -> (r: String)
    requires
        files_well_formed(files_view(files@)),
    ensures
        r@ == translation(files_view(files@), no_init_option),
{
    let ghost fv = files_view(files@);
    let mut output = if no_init_option {
        String::new()
    } else {
        init()
    };
    let ghost head = output@;
    assert(head + files_code(fv.take(0)) == head);
    let mut i: usize = 0;
    while i < files.len()
        invariant
            fv == files_view(files@),
            files_well_formed(fv),
            i <= files@.len(),
            head == (if no_init_option {
                seq![]
            } else {
                init_code()
            }),
            output@ == head + files_code(fv.take(i as int)),
        decreases files@.len() - i,
    {
        let file = &files[i];
        assert(fv[i as int] == (file.name@, file.text@));
        let cmds = parse(file.text.as_str());
        assert(all_well_formed(parse_spec(fv[i as int].1)));
        let code = code_write(&cmds, file.name.as_str());
        let ghost before = output@;
        output.append(code.as_str());
        i = i + 1;
        assert(fv.take(i as int).drop_last() == fv.take(i - 1));
        assert(head + files_code(fv.take(i - 1)) + code@ == head + (files_code(fv.take(i - 1))
            + code@));
    }
    assert(fv.take(i as int) == fv);
    output
}

} // verus!
