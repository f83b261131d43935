use vm_translator::code_writer::{
    code_write, init, write_arithmetic, write_call, write_function, write_goto, write_if,
    write_label, write_pop, write_push, write_return,
};
use vm_translator::command_type::CommandType;
use vm_translator::parser::{check_command, check_commands, parse, CommandError, VmCommand};
use vm_translator::text::{parse_usize, split_words, strip_comment_chars, usize_to_string};
use vm_translator::{vm_translator, VmFile};

const PUSH_D: &str = "@SP\nA=M\nM=D\n@SP\nM=M+1\n";

fn first_argument(cmd: &VmCommand) -> Vec<String> {
    let mut out = Vec::new();
    out.push(cmd.arg1().clone());
    out
}

#[test]
fn parse_counts_commands() {
    let cmds = parse("push constant 7\n// comment\n\npush constant 8\nadd\n");
    assert_eq!(cmds.len(), 3);
    assert_eq!(cmds[0].command_type(), Some(CommandType::CPush));
    assert_eq!(cmds[0].arg1(), "constant");
    assert_eq!(cmds[0].arg2(), "7");
    assert_eq!(cmds[2].command_type(), Some(CommandType::CArithmetic));
    assert_eq!(cmds[2].arg1(), "add");
}

#[test]
fn parse_strips_comments_and_whitespace() {
    let cmds = parse("  push\tlocal   2 // push it\r\npop that 1//x\r\nlabel LOOP");
    assert_eq!(cmds.len(), 3);
    assert_eq!(cmds[0].arg1(), "local");
    assert_eq!(cmds[0].arg2(), "2");
    assert_eq!(cmds[1].arg1(), "that");
    assert_eq!(cmds[1].arg2(), "1");
    assert_eq!(cmds[2].command_type(), Some(CommandType::CLabel));
    assert_eq!(first_argument(&cmds[2]), vec!["LOOP".to_string()]);
}

#[test]
fn parse_keeps_blank_code_as_empty_command() {
    // text before `//` made of whitespace only still counts as a command, with no words
    let cmds = parse("   // indented comment\nadd\n");
    assert_eq!(cmds.len(), 2);
    assert_eq!(check_command(&cmds[0]), Err(CommandError::MissingWord { len: 0, index: 0 }));
    assert_eq!(check_command(&cmds[1]), Ok(()));
    assert_eq!(check_commands(&cmds), Err((0, CommandError::MissingWord { len: 0, index: 0 })));
}

#[test]
fn parse_last_line_keeps_carriage_return_without_line_feed() {
    let cmds = parse("label A\r");
    assert_eq!(cmds.len(), 1);
    // the carriage return is whitespace, so the word is still `A`
    assert_eq!(cmds[0].arg1(), "A");
    let empty = parse("");
    assert_eq!(empty.len(), 0);
}

#[test]
fn command_types() {
    let cases = [
        ("add", Some(CommandType::CArithmetic)),
        ("sub", Some(CommandType::CArithmetic)),
        ("neg", Some(CommandType::CArithmetic)),
        ("eq", Some(CommandType::CArithmetic)),
        ("gt", Some(CommandType::CArithmetic)),
        ("lt", Some(CommandType::CArithmetic)),
        ("and", Some(CommandType::CArithmetic)),
        ("or", Some(CommandType::CArithmetic)),
        ("not", Some(CommandType::CArithmetic)),
        ("push", Some(CommandType::CPush)),
        ("pop", Some(CommandType::CPop)),
        ("label", Some(CommandType::CLabel)),
        ("goto", Some(CommandType::CGoto)),
        ("if-goto", Some(CommandType::CIf)),
        ("function", Some(CommandType::CFunction)),
        ("call", Some(CommandType::CCall)),
        ("return", Some(CommandType::CReturn)),
        ("Add", None),
        ("jump", None),
    ];
    for (word, expected) in cases.iter() {
        let cmd = VmCommand::new(vec![word.to_string()]);
        assert_eq!(cmd.command_type(), *expected);
    }
}

#[test]
fn check_errors() {
    let unknown = VmCommand::new(vec!["mul".to_string()]);
    assert_eq!(check_command(&unknown), Err(CommandError::UnknownCommand));
    let short_push = VmCommand::new(vec!["push".to_string(), "local".to_string()]);
    assert_eq!(check_command(&short_push), Err(CommandError::MissingWord { len: 2, index: 2 }));
    let bare_push = VmCommand::new(vec!["push".to_string()]);
    assert_eq!(check_command(&bare_push), Err(CommandError::MissingWord { len: 1, index: 1 }));
    let bare_goto = VmCommand::new(vec!["goto".to_string()]);
    assert_eq!(check_command(&bare_goto), Err(CommandError::MissingWord { len: 1, index: 1 }));
    let bad_call =
        VmCommand::new(vec!["call".to_string(), "f".to_string(), "-1".to_string()]);
    assert_eq!(check_command(&bad_call), Err(CommandError::InvalidNumber(CommandType::CCall)));
    let bad_fn =
        VmCommand::new(vec!["function".to_string(), "f".to_string(), "x".to_string()]);
    assert_eq!(check_command(&bad_fn), Err(CommandError::InvalidNumber(CommandType::CFunction)));
    let ret = VmCommand::new(vec!["return".to_string()]);
    assert_eq!(check_command(&ret), Ok(()));
    let cmds = parse("push constant 1\npop local x\nadd\n");
    assert_eq!(check_commands(&cmds), Err((1, CommandError::InvalidNumber(CommandType::CPop))));
}

#[test]
fn numbers() {
    assert_eq!(parse_usize("0"), Some(0));
    assert_eq!(parse_usize("007"), Some(7));
    assert_eq!(parse_usize("+5"), Some(5));
    assert_eq!(parse_usize("+"), None);
    assert_eq!(parse_usize("++5"), None);
    assert_eq!(parse_usize("-0"), None);
    assert_eq!(parse_usize(""), None);
    assert_eq!(parse_usize("1a"), None);
    assert_eq!(parse_usize("١"), None);
    assert_eq!(parse_usize(&usize::MAX.to_string()), Some(usize::MAX));
    assert_eq!(parse_usize(&(usize::MAX as u128 + 1).to_string()), None);
    assert_eq!(usize_to_string(0), "0");
    assert_eq!(usize_to_string(1234), "1234");
    assert_eq!(usize_to_string(usize::MAX), usize::MAX.to_string());
    for n in [0usize, 9, 10, 99, 100, 65535, usize::MAX] {
        assert_eq!(parse_usize(&usize_to_string(n)), Some(n));
    }
}

#[test]
fn text_helpers() {
    let chars: Vec<char> = "a\u{a0}b  c\u{3000}d".chars().collect();
    assert_eq!(split_words(&chars), vec!["a", "b", "c", "d"]);
    let line: Vec<char> = "add / x // y // z".chars().collect();
    let stripped: String = strip_comment_chars(&line).into_iter().collect();
    assert_eq!(stripped, "add / x ");
}

#[test]
fn arithmetic_code() {
    assert_eq!(write_arithmetic("add", "F$1"), "@SP\nA=M-1\nD=M\nA=A-1\nM=D+M\n@SP\nM=M-1\n");
    assert_eq!(write_arithmetic("sub", "F$1"), "@SP\nA=M-1\nD=M\nA=A-1\nM=M-D\n@SP\nM=M-1\n");
    assert_eq!(write_arithmetic("neg", "F$1"), "@SP\nA=M-1\nM=-M\n");
    assert_eq!(write_arithmetic("and", "F$1"), "@SP\nA=M-1\nD=M\nA=A-1\nM=M&D\n@SP\nM=M-1\n");
    assert_eq!(write_arithmetic("or", "F$1"), "@SP\nA=M-1\nD=M\nA=A-1\nM=M|D\n@SP\nM=M-1\n");
    assert_eq!(write_arithmetic("not", "F$1"), "@SP\nA=M-1\nM=!M\n");
    assert_eq!(write_arithmetic("mul", "F$1"), "");
    let id = "F$3";
    for (cmd, jump) in [("eq", "JEQ"), ("gt", "JGT"), ("lt", "JLT")] {
        let expected = format!("@SP\nA=M-1\nD=M\nA=A-1\nMD=M-D\n@XGTY{}\nD;{}\n@SP\nA=M-1\nA=A-1\nM=0\n@END{}\n0;JMP\n(XGTY{})\n@SP\nA=M-1\nA=A-1\nM=-1\n(END{})\n@SP\nM=M-1\n", id, jump, id, id, id);
        assert_eq!(write_arithmetic(cmd, id), expected);
    }
}

#[test]
fn push_code() {
    assert_eq!(write_push("constant", 7, "F"), format!("@7\nD=A\n{}", PUSH_D));
    assert_eq!(write_push("local", 2, "F"), format!("@LCL\nA=M\nA=A+1\nA=A+1\nD=M\n{}", PUSH_D));
    assert_eq!(write_push("argument", 0, "F"), format!("@ARG\nA=M\nD=M\n{}", PUSH_D));
    assert_eq!(write_push("this", 1, "F"), format!("@THIS\nA=M\nA=A+1\nD=M\n{}", PUSH_D));
    assert_eq!(write_push("that", 1, "F"), format!("@THAT\nA=M\nA=A+1\nD=M\n{}", PUSH_D));
    assert_eq!(write_push("pointer", 1, "F"), format!("@R3\nA=A+1\nD=M\n{}", PUSH_D));
    assert_eq!(write_push("temp", 3, "F"), format!("@R5\nA=A+1\nA=A+1\nA=A+1\nD=M\n{}", PUSH_D));
    assert_eq!(write_push("static", 3, "Foo"), format!("@Foo.3\nD=M\n{}", PUSH_D));
    assert_eq!(write_push("heap", 1, "F"), format!("\nA=A+1\nD=M\n{}", PUSH_D));
}

#[test]
fn pop_code() {
    let head = "@SP\nA=M-1\nD=M\n";
    let tail = "M=D\n@SP\nM=M-1\n";
    assert_eq!(write_pop("constant", 5, "F"), "");
    assert_eq!(write_pop("temp", 2, "F"), format!("{}@R5\nA=A+1\nA=A+1\n{}", head, tail));
    assert_eq!(write_pop("static", 1, "Foo"), format!("{}@Foo.1\n{}", head, tail));
    assert_eq!(write_pop("local", 0, "F"), format!("{}@LCL\nA=M\n{}", head, tail));
    assert_eq!(write_pop("argument", 1, "F"), format!("{}@ARG\nA=M\nA=A+1\n{}", head, tail));
    assert_eq!(write_pop("this", 0, "F"), format!("{}@THIS\nA=M\n{}", head, tail));
    assert_eq!(write_pop("that", 0, "F"), format!("{}@THAT\nA=M\n{}", head, tail));
    assert_eq!(write_pop("pointer", 0, "F"), format!("{}@R3\n{}", head, tail));
    assert_eq!(write_pop("heap", 1, "F"), format!("{}\nA=A+1\n{}", head, tail));
}

#[test]
fn branching_code() {
    assert_eq!(write_label("LOOP", ""), "(LOOP)\n");
    assert_eq!(write_label("LOOP", "Main.f"), "(Main.f$LOOP)\n");
    assert_eq!(write_goto("END", ""), "@END\n0;JMP\n");
    assert_eq!(write_goto("END", "Main.f"), "@Main.f$END\n0;JMP\n");
    assert_eq!(write_if("END", ""), "@SP\nA=M-1\nD=M\n@SP\nM=M-1\n@END\nD;JNE\n");
    assert_eq!(write_if("END", "g"), "@SP\nA=M-1\nD=M\n@SP\nM=M-1\n@g$END\nD;JNE\n");
}

fn expected_call(f: &str, n: usize, id: &str) -> String {
    format!(
        "@{f}return{id}\nD=A\n{p}@LCL\nD=M\n{p}@ARG\nD=M\n{p}@THIS\nD=M\n{p}@THAT\nD=M\n{p}@SP\nD=M\n@5\nD=D-A\n@{n}\nD=D-A\n@ARG\nM=D\n@SP\nD=M\n@LCL\nM=D\n@{f}\n0;JMP\n({f}return{id})\n",
        f = f,
        id = id,
        n = n,
        p = PUSH_D
    )
}

const RETURN_CODE: &str = "@LCL\nD=M\n@FLAME\nM=D\n@5\nA=D-A\nD=M\n@RET\nM=D\n@SP\nAM=M-1\nD=M\n@ARG\nA=M\nM=D\n@ARG\nD=M+1\n@SP\nM=D\n@FLAME\nA=M-1\nD=M\n@THAT\nM=D\n@FLAME\nD=M\n@2\nA=D-A\nD=M\n@THIS\nM=D\n@FLAME\nD=M\n@3\nA=D-A\nD=M\n@ARG\nM=D\n@FLAME\nD=M\n@4\nA=D-A\nD=M\n@LCL\nM=D\n@RET\nA=M\n0;JMP\n";

#[test]
fn function_call_return_code() {
    assert_eq!(write_call("Main.add", 2, "Main$7"), expected_call("Main.add", 2, "Main$7"));
    assert_eq!(write_return(), RETURN_CODE);
    let zero = format!("@0\nD=A\n{}", PUSH_D);
    assert_eq!(write_function("Main.f", 0), "(Main.f)\n");
    assert_eq!(write_function("Main.f", 2), format!("(Main.f)\n{}{}", zero, zero));
    assert_eq!(init(), format!("@256\nD=A\n@SP\nM=D\n{}", expected_call("Sys.init", 0, "")));
}

#[test]
fn file_code() {
    let text = "label TOP\nfunction Main.f 1\nlabel LOOP\neq\nif-goto LOOP\ncall Main.g 1\nreturn\nfunction Main.g 0\ngoto LOOP\n";
    let cmds = parse(text);
    assert_eq!(check_commands(&cmds), Ok(()));
    let out = code_write(&cmds, "Main");
    let expected = [
        write_label("TOP", ""),
        write_function("Main.f", 1),
        write_label("LOOP", "Main.f"),
        write_arithmetic("eq", "Main$4"),
        write_if("LOOP", "Main.f"),
        write_call("Main.g", 1, "Main$6"),
        write_return(),
        write_function("Main.g", 0),
        write_goto("LOOP", "Main.g"),
    ]
    .concat();
    assert_eq!(out, expected);
    assert!(out.contains("(Main.f$LOOP)\n"));
    assert!(out.contains("@Main.g$LOOP\n0;JMP\n"));
}

#[test]
fn distinct_comparison_labels() {
    let cmds = parse("eq\neq\n");
    let out = code_write(&cmds, "Foo");
    assert!(out.contains("(XGTYFoo$1)"));
    assert!(out.contains("(XGTYFoo$2)"));
    assert_ne!(write_arithmetic("eq", "Foo$1"), write_arithmetic("eq", "Foo$2"));
}

#[test]
fn whole_program() {
    let files = vec![
        VmFile { name: "Main".to_string(), text: "push constant 1\npush static 0\nadd\n".to_string() },
        VmFile { name: "Sys".to_string(), text: "function Sys.init 0\ncall Main.main 0\n".to_string() },
    ];
    let bare = vm_translator(&files, true);
    let main_code = code_write(&parse(&files[0].text), "Main");
    let sys_code = code_write(&parse(&files[1].text), "Sys");
    assert_eq!(bare, format!("{}{}", main_code, sys_code));
    assert!(bare.contains("@Main.0\n"));
    let full = vm_translator(&files, false);
    assert_eq!(full, format!("{}{}", init(), bare));
    assert_eq!(vm_translator(&Vec::new(), true), "");
}

#[test]
fn translation_in_parts() {
    let a = vec![VmFile { name: "A".to_string(), text: "push constant 2\n".to_string() }];
    let b = vec![VmFile { name: "B".to_string(), text: "lt\n".to_string() }];
    let both = vec![
        VmFile { name: "A".to_string(), text: "push constant 2\n".to_string() },
        VmFile { name: "B".to_string(), text: "lt\n".to_string() },
    ];
    assert_eq!(vm_translator(&both, true), vm_translator(&a, true) + &vm_translator(&b, true));
}

#[test]
fn parse_line_by_line() {
    let t1 = "push constant 1\r\n// c\n";
    let t2 = "add\nlabel X";
    let joined = parse(&format!("{}{}", t1, t2));
    let first = parse(t1);
    let second = parse(t2);
    assert_eq!(joined.len(), first.len() + second.len());
    assert_eq!(joined[0].arg2(), first[0].arg2());
    assert_eq!(joined[1].arg1(), second[0].arg1());
    assert_eq!(joined[2].arg1(), second[1].arg1());
}

#[test]
fn comment_lines_ignored() {
    let with = parse("add\n// note\r\n\nsub\n");
    let without = parse("add\nsub\n");
    assert_eq!(with.len(), without.len());
    assert_eq!(with[0].arg1(), without[0].arg1());
    assert_eq!(with[1].arg1(), without[1].arg1());
    let out_with = code_write(&with, "F");
    let out_without = code_write(&without, "F");
    assert_eq!(out_with, out_without);
}

#[test]
fn parsed_words_have_no_whitespace() {
    let cmds = parse(" \tpush  constant\t 3 \npop\u{2003}temp 0\n");
    assert_eq!(cmds.len(), 2);
    for cmd in cmds.iter() {
        for w in [cmd.arg1(), cmd.arg2()] {
            assert!(!w.is_empty());
            assert!(!w.chars().any(|c| c.is_whitespace()));
        }
    }
    assert_eq!(cmds[1].arg1(), "temp");
}
