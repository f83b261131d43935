use vstd::prelude::*;

use crate::command_type::CommandType;
use crate::parser::{
    all_well_formed, arg1_of, command_type_of, commands_view, well_formed, VmCommand,
};
use crate::text::{decimal, parse_usize, parse_usize_spec, str_eq, usize_to_string};

verus! {

/// `s` written `n` times.
pub open spec fn repeat(s: Seq<char>, n: nat) -> Seq<char>
    decreases n,
{
    if n == 0 {
        seq![]
    } else {
        repeat(s, (n - 1) as nat) + s
    }
}

/// The code that compares the two topmost stack values with the jump `jump`,
/// leaving -1 (true) or 0 (false); `id` makes its labels unique.
pub open spec fn compare_code(jump: Seq<char>, id: Seq<char>) -> Seq<char> {
    "@SP\nA=M-1\nD=M\nA=A-1\nMD=M-D\n@XGTY"@ + id + "\nD;"@ + jump
        + "\n@SP\nA=M-1\nA=A-1\nM=0\n@END"@ + id + "\n0;JMP\n(XGTY"@ + id
        + ")\n@SP\nA=M-1\nA=A-1\nM=-1\n(END"@ + id + ")\n@SP\nM=M-1\n"@
}

/// The code of an arithmetic or logical command; empty for any other word.
pub open spec fn arithmetic_code(command: Seq<char>, id: Seq<char>) -> Seq<char> {
    if command == "add"@ {
        "@SP\nA=M-1\nD=M\nA=A-1\nM=D+M\n@SP\nM=M-1\n"@
    } else if command == "sub"@ {
        "@SP\nA=M-1\nD=M\nA=A-1\nM=M-D\n@SP\nM=M-1\n"@
    } else if command == "neg"@ {
        "@SP\nA=M-1\nM=-M\n"@
    } else if command == "eq"@ {
        compare_code("JEQ"@, id)
    } else if command == "gt"@ {
        compare_code("JGT"@, id)
    } else if command == "lt"@ {
        compare_code("JLT"@, id)
    } else if command == "and"@ {
        "@SP\nA=M-1\nD=M\nA=A-1\nM=M&D\n@SP\nM=M-1\n"@
    } else if command == "or"@ {
        "@SP\nA=M-1\nD=M\nA=A-1\nM=M|D\n@SP\nM=M-1\n"@
    } else if command == "not"@ {
        "@SP\nA=M-1\nM=!M\n"@
    } else {
        seq![]
    }
}

/// The code that translates `command` with the unique suffix `id`.
pub fn write_arithmetic(command: &str, id: &str) -> (r: String)
    ensures
        r@ == arithmetic_code(command@, id@),
{
    if str_eq(command, "add") {
        String::from_str("@SP\nA=M-1\nD=M\nA=A-1\nM=D+M\n@SP\nM=M-1\n")
    } else if str_eq(command, "sub") {
        String::from_str("@SP\nA=M-1\nD=M\nA=A-1\nM=M-D\n@SP\nM=M-1\n")
    } else if str_eq(command, "neg") {
        String::from_str("@SP\nA=M-1\nM=-M\n")
    } else if str_eq(command, "eq") {
        write_compare("JEQ", id)
    } else if str_eq(command, "gt") {
        write_compare("JGT", id)
    } else if str_eq(command, "lt") {
        write_compare("JLT", id)
    } else if str_eq(command, "and") {
        String::from_str("@SP\nA=M-1\nD=M\nA=A-1\nM=M&D\n@SP\nM=M-1\n")
    } else if str_eq(command, "or") {
        String::from_str("@SP\nA=M-1\nD=M\nA=A-1\nM=M|D\n@SP\nM=M-1\n")
    } else if str_eq(command, "not") {
        String::from_str("@SP\nA=M-1\nM=!M\n")
    } else {
        String::new()
    }
}

fn write_compare(jump: &str, id: &str) -> (r: String)
    ensures
        r@ == compare_code(jump@, id@),
{
    let mut code = String::from_str("@SP\nA=M-1\nD=M\nA=A-1\nMD=M-D\n@XGTY");
    code.append(id);
    code.append("\nD;");
    code.append(jump);
    code.append("\n@SP\nA=M-1\nA=A-1\nM=0\n@END");
    code.append(id);
    code.append("\n0;JMP\n(XGTY");
    code.append(id);
    code.append(")\n@SP\nA=M-1\nA=A-1\nM=-1\n(END");
    code.append(id);
    code.append(")\n@SP\nM=M-1\n");
    code
}

/// The code that points `A` (or, for `static` and `constant`, names the value) at
/// the base of `segment` when pushing.
pub open spec fn push_base(segment: Seq<char>, index: nat, file_name: Seq<char>) -> Seq<char> {
    if segment == "argument"@ {
        "@ARG\nA=M\n"@
    } else if segment == "local"@ {
        "@LCL\nA=M\n"@
    } else if segment == "static"@ {
        "@"@ + file_name + "."@ + decimal(index) + "\n"@
    } else if segment == "constant"@ {
        "@"@ + decimal(index) + "\n"@
    } else if segment == "this"@ {
        "@THIS\nA=M\n"@
    } else if segment == "that"@ {
        "@THAT\nA=M\n"@
    } else if segment == "pointer"@ {
        "@R3\n"@
    } else if segment == "temp"@ {
        "@R5\n"@
    } else {
        "\n"@
    }
}

/// The code that steps `A` forward `index` times, for the segments addressed
/// through a base.
pub open spec fn offset_code(segment: Seq<char>, index: nat) -> Seq<char> {
    if segment != "static"@ && segment != "constant"@ {
        repeat("A=A+1\n"@, index)
    } else {
        seq![]
    }
}

/// The code of `push segment index` in the file named `file_name`.
pub open spec fn push_code(segment: Seq<char>, index: nat, file_name: Seq<char>) -> Seq<char> {
    push_base(segment, index, file_name) + offset_code(segment, index) + (if segment
        == "constant"@ {
        "D=A\n"@
    } else {
        "D=M\n"@
    }) + "@SP\nA=M\nM=D\n@SP\nM=M+1\n"@
}

/// The code that points `A` at the base of `segment` when popping.
pub open spec fn pop_base(segment: Seq<char>, index: nat, file_name: Seq<char>) -> Seq<char> {
    if segment == "argument"@ {
        "@ARG\nA=M\n"@
    } else if segment == "local"@ {
        "@LCL\nA=M\n"@
    } else if segment == "static"@ {
        "@"@ + file_name + "."@ + decimal(index) + "\n"@
    } else if segment == "this"@ {
        "@THIS\nA=M\n"@
    } else if segment == "that"@ {
        "@THAT\nA=M\n"@
    } else if segment == "pointer"@ {
        "@R3\n"@
    } else if segment == "temp"@ {
        "@R5\n"@
    } else {
        "\n"@
    }
}

/// The code of `pop segment index` in the file named `file_name`; nothing for the
/// `constant` segment.
pub open spec fn pop_code(segment: Seq<char>, index: nat, file_name: Seq<char>) -> Seq<char> {
    if segment == "constant"@ {
        seq![]
    } else {
        "@SP\nA=M-1\nD=M\n"@ + pop_base(segment, index, file_name) + (if segment != "static"@ {
            repeat("A=A+1\n"@, index)
        } else {
            seq![]
        }) + "M=D\n@SP\nM=M-1\n"@
    }
}

/// Appends `piece` to `code` `n` times.
fn append_repeat(code: &mut String, piece: &str, n: usize)
    ensures
        final(code)@ == old(code)@ + repeat(piece@, n as nat),
{
    let mut i: usize = 0;
    while i < n
        invariant
            i <= n,
            code@ == old(code)@ + repeat(piece@, i as nat),
        decreases n - i,
    {
        code.append(piece);
        i = i + 1;
        assert(repeat(piece@, i as nat) == repeat(piece@, (i - 1) as nat) + piece@);
        assert(old(code)@ + repeat(piece@, (i - 1) as nat) + piece@ == old(code)@ + (repeat(
            piece@,
            (i - 1) as nat,
        ) + piece@));
    }
}

/// The code of `push segment index` in the file named `file_name`.
pub fn write_push(segment: &str, index: usize, file_name: &str) -> (r: String)
    ensures
        r@ == push_code(segment@, index as nat, file_name@),
{
    let is_static = str_eq(segment, "static");
    let is_constant = str_eq(segment, "constant");
    let mut code = if str_eq(segment, "argument") {
        String::from_str("@ARG\nA=M\n")
    } else if str_eq(segment, "local") {
        String::from_str("@LCL\nA=M\n")
    } else if is_static {
        let mut c = String::from_str("@");
        c.append(file_name);
        c.append(".");
        c.append(usize_to_string(index).as_str());
        c.append("\n");
        c
    } else if is_constant {
        let mut c = String::from_str("@");
        c.append(usize_to_string(index).as_str());
        c.append("\n");
        c
    } else if str_eq(segment, "this") {
        String::from_str("@THIS\nA=M\n")
    } else if str_eq(segment, "that") {
        String::from_str("@THAT\nA=M\n")
    } else if str_eq(segment, "pointer") {
        String::from_str("@R3\n")
    } else if str_eq(segment, "temp") {
        String::from_str("@R5\n")
    } else {
        String::from_str("\n")
    };
    let ghost base = code@;
    assert(base == push_base(segment@, index as nat, file_name@));
    if !is_static && !is_constant {
        append_repeat(&mut code, "A=A+1\n", index);
    } else {
        assert(code@ == code@ + Seq::<char>::empty());
    }
    assert(code@ == base + offset_code(segment@, index as nat));
    if is_constant {
        code.append("D=A\n");
    } else {
        code.append("D=M\n");
    }
    code.append("@SP\nA=M\nM=D\n@SP\nM=M+1\n");
    code
}

/// The code of `pop segment index` in the file named `file_name`.
pub fn write_pop(segment: &str, index: usize, file_name: &str) -> (r: String)
    ensures
        r@ == pop_code(segment@, index as nat, file_name@),
{
    if str_eq(segment, "constant") {
        return String::new();
    }
    let is_static = str_eq(segment, "static");
    let mut code = String::from_str("@SP\nA=M-1\nD=M\n");
    if str_eq(segment, "argument") {
        code.append("@ARG\nA=M\n");
    } else if str_eq(segment, "local") {
        code.append("@LCL\nA=M\n");
    } else if is_static {
        code.append("@");
        code.append(file_name);
        code.append(".");
        code.append(usize_to_string(index).as_str());
        code.append("\n");
    } else if str_eq(segment, "this") {
        code.append("@THIS\nA=M\n");
    } else if str_eq(segment, "that") {
        code.append("@THAT\nA=M\n");
    } else if str_eq(segment, "pointer") {
        code.append("@R3\n");
    } else if str_eq(segment, "temp") {
        code.append("@R5\n");
    } else {
        code.append("\n");
    }
    let ghost head = code@;
    assert(head == "@SP\nA=M-1\nD=M\n"@ + pop_base(segment@, index as nat, file_name@)) by {
        if is_static {
            assert("@SP\nA=M-1\nD=M\n"@ + "@"@ + file_name@ + "."@ + decimal(index as nat) + "\n"@
                == "@SP\nA=M-1\nD=M\n"@ + ("@"@ + file_name@ + "."@ + decimal(index as nat)
                + "\n"@));
        }
    }
    if !is_static {
        append_repeat(&mut code, "A=A+1\n", index);
    } else {
        assert(code@ == code@ + Seq::<char>::empty());
    }
    code.append("M=D\n@SP\nM=M-1\n");
    code
}

/// The assembly name of the VM label `label` inside the function `function_name`:
/// `function_name$label`, or `label` itself outside any function.
pub open spec fn qualified_label(label: Seq<char>, function_name: Seq<char>) -> Seq<char> {
    if function_name.len() == 0 {
        label
    } else {
        function_name + "$"@ + label
    }
}

/// The code of `label label` inside `function_name`.
pub open spec fn label_code(label: Seq<char>, function_name: Seq<char>) -> Seq<char> {
    "("@ + qualified_label(label, function_name) + ")\n"@
}

/// The code of `goto label` inside `function_name`.
pub open spec fn goto_code(label: Seq<char>, function_name: Seq<char>) -> Seq<char> {
    "@"@ + qualified_label(label, function_name) + "\n0;JMP\n"@
}

/// The code of `if-goto label` inside `function_name`.
pub open spec fn if_code(label: Seq<char>, function_name: Seq<char>) -> Seq<char> {
    "@SP\nA=M-1\nD=M\n@SP\nM=M-1\n"@ + "@"@ + qualified_label(label, function_name)
        + "\nD;JNE\n"@
}

/// The code of `call function_name num_args`; `id` makes its return label unique.
pub open spec fn call_code(function_name: Seq<char>, num_args: nat, id: Seq<char>) -> Seq<char> {
    "@"@ + function_name + "return"@ + id + "\nD=A\n@SP\nA=M\nM=D\n@SP\nM=M+1\n"@
        + "@LCL\nD=M\n@SP\nA=M\nM=D\n@SP\nM=M+1\n"@ + "@ARG\nD=M\n@SP\nA=M\nM=D\n@SP\nM=M+1\n"@
        + "@THIS\nD=M\n@SP\nA=M\nM=D\n@SP\nM=M+1\n"@ + "@THAT\nD=M\n@SP\nA=M\nM=D\n@SP\nM=M+1\n"@
        + "@SP\nD=M\n@5\nD=D-A\n@"@ + decimal(num_args) + "\nD=D-A\n@ARG\nM=D\n"@
        + "@SP\nD=M\n@LCL\nM=D\n"@ + "@"@ + function_name + "\n0;JMP\n"@ + "("@ + function_name
        + "return"@ + id + ")\n"@
}

/// The code of `return`.
pub open spec fn return_code() -> Seq<char> {
    "@LCL\nD=M\n@FLAME\nM=D\n@5\nA=D-A\nD=M\n@RET\nM=D\n@SP\nAM=M-1\nD=M\n@ARG\nA=M\nM=D\n@ARG\nD=M+1\n@SP\nM=D\n@FLAME\nA=M-1\nD=M\n@THAT\nM=D\n@FLAME\nD=M\n@2\nA=D-A\nD=M\n@THIS\nM=D\n@FLAME\nD=M\n@3\nA=D-A\nD=M\n@ARG\nM=D\n@FLAME\nD=M\n@4\nA=D-A\nD=M\n@LCL\nM=D\n@RET\nA=M\n0;JMP\n"@
}

/// The code of `function function_name n_locals`: its entry label, then one
/// `push constant 0` per local variable.
pub open spec fn function_code(function_name: Seq<char>, n_locals: nat) -> Seq<char> {
    "("@ + function_name + ")\n"@ + repeat(push_code("constant"@, 0, seq![]), n_locals)
}

/// The bootstrap code: `SP = 256`, then `call Sys.init 0`.
pub open spec fn init_code() -> Seq<char> {
    "@256\nD=A\n@SP\nM=D\n"@ + call_code("Sys.init"@, 0, seq![])
}

/// Appends the assembly name of `label` inside `function_name`.
fn append_qualified(code: &mut String, label: &str, function_name: &str)
    ensures
        final(code)@ == old(code)@ + qualified_label(label@, function_name@),
{
    if function_name.is_empty() {
        code.append(label);
    } else {
        let ghost before = code@;
        code.append(function_name);
        code.append("$");
        code.append(label);
        assert(before + function_name@ + "$"@ + label@ == before + (function_name@ + "$"@
            + label@));
    }
}

/// The code of `label label_name` inside `function_name`.
pub fn write_label(label_name: &str, function_name: &str) -> (r: String)
    ensures
        r@ == label_code(label_name@, function_name@),
{
    let mut code = String::from_str("(");
    append_qualified(&mut code, label_name, function_name);
    code.append(")\n");
    code
}

/// The code of `goto label_name` inside `function_name`.
pub fn write_goto(label_name: &str, function_name: &str) -> (r: String)
    ensures
        r@ == goto_code(label_name@, function_name@),
{
    let mut code = String::from_str("@");
    append_qualified(&mut code, label_name, function_name);
    code.append("\n0;JMP\n");
    code
}

/// The code of `if-goto label_name` inside `function_name`.
pub fn write_if(label_name: &str, function_name: &str) -> (r: String)
    ensures
        r@ == if_code(label_name@, function_name@),
{
    let mut code = String::from_str("@SP\nA=M-1\nD=M\n@SP\nM=M-1\n");
    code.append("@");
    append_qualified(&mut code, label_name, function_name);
    code.append("\nD;JNE\n");
    code
}

/// The code of `call function_name num_args`, its return label made unique by `id`.
pub fn write_call(function_name: &str, num_args: usize, id: &str) -> (r: String)
    ensures
        r@ == call_code(function_name@, num_args as nat, id@),
{
    let mut code = String::from_str("@");
    code.append(function_name);
    code.append("return");
    code.append(id);
    code.append("\nD=A\n@SP\nA=M\nM=D\n@SP\nM=M+1\n");
    code.append("@LCL\nD=M\n@SP\nA=M\nM=D\n@SP\nM=M+1\n");
    code.append("@ARG\nD=M\n@SP\nA=M\nM=D\n@SP\nM=M+1\n");
    code.append("@THIS\nD=M\n@SP\nA=M\nM=D\n@SP\nM=M+1\n");
    code.append("@THAT\nD=M\n@SP\nA=M\nM=D\n@SP\nM=M+1\n");
    code.append("@SP\nD=M\n@5\nD=D-A\n@");
    code.append(usize_to_string(num_args).as_str());
    code.append("\nD=D-A\n@ARG\nM=D\n");
    code.append("@SP\nD=M\n@LCL\nM=D\n");
    code.append("@");
    code.append(function_name);
    code.append("\n0;JMP\n");
    code.append("(");
    code.append(function_name);
    code.append("return");
    code.append(id);
    code.append(")\n");
    code
}

/// The code of `return`.
pub fn write_return() -> (r: String)
    ensures
        r@ == return_code(),
{
    String::from_str(
        "@LCL\nD=M\n@FLAME\nM=D\n@5\nA=D-A\nD=M\n@RET\nM=D\n@SP\nAM=M-1\nD=M\n@ARG\nA=M\nM=D\n@ARG\nD=M+1\n@SP\nM=D\n@FLAME\nA=M-1\nD=M\n@THAT\nM=D\n@FLAME\nD=M\n@2\nA=D-A\nD=M\n@THIS\nM=D\n@FLAME\nD=M\n@3\nA=D-A\nD=M\n@ARG\nM=D\n@FLAME\nD=M\n@4\nA=D-A\nD=M\n@LCL\nM=D\n@RET\nA=M\n0;JMP\n",
    )
}

/// The code of `function function_name n_locals`.
pub fn write_function(function_name: &str, n_locals: usize) -> (r: String)
    ensures
        r@ == function_code(function_name@, n_locals as nat),
{
    let mut code = String::from_str("(");
    code.append(function_name);
    code.append(")\n");
    let push_zero = write_push("constant", 0, "");
    proof {
        reveal_strlit("");
    }
    append_repeat(&mut code, push_zero.as_str(), n_locals);
    code
}

/// The bootstrap code that starts a translated program: `SP = 256`, then
/// `call Sys.init 0`.
pub fn init() -> (r: String)
    ensures
        r@ == init_code(),
{
    let mut code = String::from_str("@256\nD=A\n@SP\nM=D\n");
    let call = write_call("Sys.init", 0, "");
    proof {
        reveal_strlit("");
    }
    code.append(call.as_str());
    code
}

/// The suffix that makes the labels of the `k`-th command (counted from 1) of the
/// file `file_name` unique: `file_name$k`.
pub open spec fn command_id(file_name: Seq<char>, k: nat) -> Seq<char> {
    file_name + "$"@ + decimal(k)
}

/// The number that the third word of `w` holds.
pub open spec fn number_arg(w: Seq<Seq<char>>) -> nat {
    parse_usize_spec(w[2]).unwrap() as nat
}

/// The code of the command with words `w`, with the unique suffix `id`, inside the
/// function `function_name`, in the file named `file_name`.
pub open spec fn command_code(
    w: Seq<Seq<char>>,
    id: Seq<char>,
    function_name: Seq<char>,
    file_name: Seq<char>,
) -> Seq<char> {
    match command_type_of(w) {
        Some(CommandType::CArithmetic) => arithmetic_code(arg1_of(w), id),
        Some(CommandType::CPush) => push_code(arg1_of(w), number_arg(w), file_name),
        Some(CommandType::CPop) => pop_code(arg1_of(w), number_arg(w), file_name),
        Some(CommandType::CLabel) => label_code(arg1_of(w), function_name),
        Some(CommandType::CGoto) => goto_code(arg1_of(w), function_name),
        Some(CommandType::CIf) => if_code(arg1_of(w), function_name),
        Some(CommandType::CFunction) => function_code(arg1_of(w), number_arg(w)),
        Some(CommandType::CReturn) => return_code(),
        Some(CommandType::CCall) => call_code(arg1_of(w), number_arg(w), id),
        None => seq![],
    }
}

/// The function that the first `k` commands of `cmds` leave the translator in: the
/// name of the last `function` command among them, or nothing.
pub open spec fn function_before(cmds: Seq<Seq<Seq<char>>>, k: nat) -> Seq<char>
    decreases k,
{
    if k == 0 {
        seq![]
    } else if command_type_of(cmds[k - 1]) == Some(CommandType::CFunction) {
        arg1_of(cmds[k - 1])
    } else {
        function_before(cmds, (k - 1) as nat)
    }
}

/// The code of the first `n` commands of `cmds` in the file named `file_name`.
pub open spec fn code_upto(cmds: Seq<Seq<Seq<char>>>, n: nat, file_name: Seq<char>) -> Seq<char>
    decreases n,
{
    if n == 0 {
        seq![]
    } else {
        code_upto(cmds, (n - 1) as nat, file_name) + command_code(
            cmds[n - 1],
            command_id(file_name, n),
            function_before(cmds, (n - 1) as nat),
            file_name,
        )
    }
}

/// The code of the commands `cmds` of the file named `file_name`.
pub open spec fn file_code(cmds: Seq<Seq<Seq<char>>>, file_name: Seq<char>) -> Seq<char> {
    code_upto(cmds, cmds.len(), file_name)
}

/// The code of one command that can be translated.
fn write_command(cmd: &VmCommand, id: &str, function_name: &str, file_name: &str) -> (r: String)
    requires
        well_formed(cmd@),
    ensures
        r@ == command_code(cmd@, id@, function_name@, file_name@),
{
    match cmd.command_type() {
        Some(CommandType::CArithmetic) => write_arithmetic(cmd.arg1().as_str(), id),
        Some(CommandType::CPush) => {
            let n = parse_usize(cmd.arg2().as_str()).unwrap();
            write_push(cmd.arg1().as_str(), n, file_name)
        },
        Some(CommandType::CPop) => {
            let n = parse_usize(cmd.arg2().as_str()).unwrap();
            write_pop(cmd.arg1().as_str(), n, file_name)
        },
        Some(CommandType::CLabel) => write_label(cmd.arg1().as_str(), function_name),
        Some(CommandType::CGoto) => write_goto(cmd.arg1().as_str(), function_name),
        Some(CommandType::CIf) => write_if(cmd.arg1().as_str(), function_name),
        Some(CommandType::CFunction) => {
            let n = parse_usize(cmd.arg2().as_str()).unwrap();
            write_function(cmd.arg1().as_str(), n)
        },
        Some(CommandType::CReturn) => write_return(),
        Some(CommandType::CCall) => {
            let n = parse_usize(cmd.arg2().as_str()).unwrap();
            write_call(cmd.arg1().as_str(), n, id)
        },
        None => String::new(),
    }
}

/// The code of the commands of one `.vm` file named `file_name`. Each command gets
/// the suffix `file_name$k` (`k` its position from 1) for its labels, and labels
/// are qualified by the function that the last `function` command opened.
pub fn code_write(vm_file: &Vec<VmCommand>, file_name: &str) -> (r: String)
    requires
        all_well_formed(commands_view(vm_file@)),
    ensures
        r@ == file_code(commands_view(vm_file@), file_name@),
{
    let ghost cmds = commands_view(vm_file@);
    let mut output = String::new();
    let mut function_name = String::new();
    let mut k: usize = 0;
    while k < vm_file.len()
        invariant
            cmds == commands_view(vm_file@),
            all_well_formed(cmds),
            k <= vm_file@.len(),
            output@ == code_upto(cmds, k as nat, file_name@),
            function_name@ == function_before(cmds, k as nat),
        decreases vm_file@.len() - k,
    {
        let cmd = &vm_file[k];
        assert(cmd@ == cmds[k as int]);
        assert(well_formed(cmds[k as int]));
        let l_id: usize = k + 1;
        let mut id = String::from_str(file_name);
        id.append("$");
        id.append(usize_to_string(l_id).as_str());
        let code = write_command(cmd, id.as_str(), function_name.as_str(), file_name);
        if cmd.command_type() == Some(CommandType::CFunction) {
            function_name = cmd.arg1().clone();
        }
        output.append(code.as_str());
        k = k + 1;
    }
    output
}

} // verus!
