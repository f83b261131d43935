use vstd::prelude::*;

use crate::code_writer::{
    call_code, command_code, command_id, function_before, goto_code, if_code, init_code,
    function_code, label_code, pop_base, pop_code, push_base, push_code, qualified_label, repeat,
};
use crate::command_type::CommandType;
use crate::parser::{arg1_of, command_type_of, parse_lines, parse_spec};
use crate::text::{
    all_digits, decimal, digit_char, digits_value, is_digit, is_whitespace, line_split, lines,
    parse_usize_spec, strip_comment, trim_cr, word_split, words,
};
use crate::{files_code, translation};

verus! {

/// The decimal representation of `n` is a nonempty run of digits that denotes `n`.
pub proof fn lemma_decimal_digits(n: nat)
    ensures
        decimal(n).len() > 0,
        all_digits(decimal(n)),
        digits_value(decimal(n)) == n,
    decreases n,
{
    if n < 10 {
        assert(decimal(n).drop_last() == Seq::<char>::empty());
        assert((48 + n) as char as int == 48 + n);
        assert(is_digit(decimal(n)[0]));
        assert(decimal(n).last() == digit_char(n));
        assert(digits_value(decimal(n)) == digits_value(Seq::<char>::empty()) * 10 + n);
    } else {
        lemma_decimal_digits(n / 10);
        let s = decimal(n);
        assert(s.drop_last() == decimal(n / 10));
        assert((48 + n % 10) as char as int == 48 + n % 10);
        assert(forall|i: int| 0 <= i < s.len() ==> is_digit(#[trigger] s[i])) by {
            assert forall|i: int| 0 <= i < s.len() implies is_digit(#[trigger] s[i]) by {
                if i < s.len() - 1 {
                    assert(s[i] == decimal(n / 10)[i]);
                }
            }
        }
        assert(s.last() == digit_char(n % 10));
        assert(digits_value(s) == digits_value(decimal(n / 10)) * 10 + (n % 10));
        assert((n / 10) * 10 + n % 10 == n) by (nonlinear_arith);
    }
}

/// Reading back the decimal representation of a `usize` gives the number: what
/// `usize_to_string` writes, `parse_usize` reads back unchanged.
pub proof fn law_decimal_parse_roundtrip(n: usize)
    ensures
        parse_usize_spec(decimal(n as nat)) == Some(n),
{
    lemma_decimal_digits(n as nat);
    let s = decimal(n as nat);
    assert(is_digit(s[0]));
}

/// Different numbers have different decimal representations.
pub proof fn law_decimal_injective(a: nat, b: nat)
    requires
        a != b,
    ensures
        decimal(a) != decimal(b),
{
    lemma_decimal_digits(a);
    lemma_decimal_digits(b);
}

/// Within one file, every command gets its own label suffix: the labels that two
/// different commands generate (for comparisons and return addresses) never clash.
pub proof fn law_command_ids_distinct(file_name: Seq<char>, j: nat, k: nat)
    requires
        j != k,
    ensures
        command_id(file_name, j) != command_id(file_name, k),
{
    law_decimal_injective(j, k);
    let p = file_name + "$"@;
    assert((p + decimal(j)).skip(p.len() as int) == decimal(j));
    assert((p + decimal(k)).skip(p.len() as int) == decimal(k));
}

/// Inside one function, `goto L` and `if-goto L` jump to the very label that
/// `label L` defines.
pub proof fn law_jumps_reach_labels(
    cmds: Seq<Seq<Seq<char>>>,
    j: nat,
    k: nat,
    file_name: Seq<char>,
    id_j: Seq<char>,
    id_k: Seq<char>,
)
    requires
        j < cmds.len(),
        k < cmds.len(),
        command_type_of(cmds[j as int]) == Some(CommandType::CLabel),
        command_type_of(cmds[k as int]) == Some(CommandType::CGoto) || command_type_of(
            cmds[k as int],
        ) == Some(CommandType::CIf),
        arg1_of(cmds[j as int]) == arg1_of(cmds[k as int]),
        function_before(cmds, j) == function_before(cmds, k),
    ensures
        ({
            let target = qualified_label(arg1_of(cmds[j as int]), function_before(cmds, j));
            &&& command_code(cmds[j as int], id_j, function_before(cmds, j), file_name) == "("@
                + target + ")\n"@
            &&& command_code(cmds[k as int], id_k, function_before(cmds, k), file_name) == (if
                command_type_of(cmds[k as int]) == Some(CommandType::CGoto) {
                "@"@ + target + "\n0;JMP\n"@
            } else {
                "@SP\nA=M-1\nD=M\n@SP\nM=M-1\n"@ + "@"@ + target + "\nD;JNE\n"@
            })
        }),
{
}

/// The sources of a program can be translated in parts: the code of `a` followed
/// by `b` is the code of `a` followed by the code of `b`.
pub proof fn law_files_code_concat(a: Seq<(Seq<char>, Seq<char>)>, b: Seq<(Seq<char>, Seq<char>)>)
    ensures
        files_code(a + b) == files_code(a) + files_code(b),
    decreases b.len(),
{
    if b.len() == 0 {
        assert(a + b == a);
        assert(files_code(a) + Seq::<char>::empty() == files_code(a));
    } else {
        law_files_code_concat(a, b.drop_last());
        assert((a + b).drop_last() == a + b.drop_last());
        assert((a + b).last() == b.last());
    }
}

/// Translating the sources `a` and then `b` without bootstrap code gives the two
/// translations one after the other; with bootstrap code, the program is the
/// bootstrap code followed by the translation without it.
pub proof fn law_translation_concat(
    a: Seq<(Seq<char>, Seq<char>)>,
    b: Seq<(Seq<char>, Seq<char>)>,
)
    ensures
        translation(a + b, true) == translation(a, true) + translation(b, true),
        translation(a + b, false) == init_code() + translation(a, true) + translation(b, true),
{
    law_files_code_concat(a, b);
    assert(Seq::<char>::empty() + files_code(a + b) == files_code(a + b));
    assert(Seq::<char>::empty() + files_code(a) == files_code(a));
    assert(Seq::<char>::empty() + files_code(b) == files_code(b));
}

proof fn lemma_line_split_concat(t1: Seq<char>, t2: Seq<char>)
    requires
        line_split(t1).1.len() == 0,
    ensures
        line_split(t1 + t2) == (line_split(t1).0 + line_split(t2).0, line_split(t2).1),
    decreases t2.len(),
{
    if t2.len() == 0 {
        assert(t1 + t2 == t1);
        assert(line_split(t1).0 + Seq::<Seq<char>>::empty() == line_split(t1).0);
    } else {
        lemma_line_split_concat(t1, t2.drop_last());
        assert((t1 + t2).drop_last() == t1 + t2.drop_last());
        assert((t1 + t2).last() == t2.last());
        let d1 = line_split(t1).0;
        let (d2, c2) = line_split(t2.drop_last());
        assert((d1 + d2).push(trim_cr(c2)) == d1 + d2.push(trim_cr(c2)));
    }
}

proof fn lemma_parse_lines_concat(a: Seq<Seq<char>>, b: Seq<Seq<char>>)
    ensures
        parse_lines(a + b) == parse_lines(a) + parse_lines(b),
    decreases b.len(),
{
    if b.len() == 0 {
        assert(a + b == a);
        assert(parse_lines(a) + Seq::<Seq<Seq<char>>>::empty() == parse_lines(a));
    } else {
        lemma_parse_lines_concat(a, b.drop_last());
        assert((a + b).drop_last() == a + b.drop_last());
        assert((a + b).last() == b.last());
        let pa = parse_lines(a);
        let pb = parse_lines(b.drop_last());
        let x = words(crate::text::strip_comment(b.last()));
        assert((pa + pb).push(x) == pa + pb.push(x));
    }
}

/// A text made of whole lines parses line by line: where `t1` is empty or ends in a
/// line feed, the commands of `t1` followed by `t2` are those of `t1` followed by
/// those of `t2`.
pub proof fn law_parse_concat(t1: Seq<char>, t2: Seq<char>)
    requires
        t1.len() == 0 || t1.last() == '\n',
    ensures
        lines(t1 + t2) == lines(t1) + lines(t2),
        parse_spec(t1 + t2) == parse_spec(t1) + parse_spec(t2),
{
    if t1.len() > 0 {
        assert(t1.drop_last() + seq![t1.last()] == t1);
    }
    lemma_line_split_concat(t1, t2);
    let (d1, c1) = line_split(t1);
    let (d2, c2) = line_split(t2);
    assert((d1 + d2).push(c2) == d1 + d2.push(c2));
    lemma_parse_lines_concat(lines(t1), lines(t2));
}

/// Whether `w` is a word: nonempty, without whitespace.
pub open spec fn is_word(w: Seq<char>) -> bool {
    w.len() > 0 && forall|i: int| 0 <= i < w.len() ==> !is_whitespace(#[trigger] w[i])
}

proof fn lemma_word_split_shape(s: Seq<char>)
    ensures
        forall|i: int| 0 <= i < word_split(s).0.len() ==> is_word(#[trigger] word_split(s).0[i]),
        forall|i: int|
            0 <= i < word_split(s).1.len() ==> !is_whitespace(#[trigger] word_split(s).1[i]),
    decreases s.len(),
{
    if s.len() > 0 {
        lemma_word_split_shape(s.drop_last());
        let (d, c) = word_split(s.drop_last());
        let (d2, c2) = word_split(s);
        if is_whitespace(s.last()) {
            if c.len() > 0 {
                assert(is_word(c));
                assert(d2 == d.push(c));
                assert forall|i: int| 0 <= i < d2.len() implies is_word(#[trigger] d2[i]) by {
                    if i < d.len() {
                        assert(d2[i] == d[i]);
                    }
                }
            }
        } else {
            assert(c2 == c.push(s.last()));
            assert forall|i: int| 0 <= i < c2.len() implies !is_whitespace(#[trigger] c2[i]) by {
                if i < c.len() {
                    assert(c2[i] == c[i]);
                }
            }
        }
    }
}

proof fn lemma_words_shape(s: Seq<char>)
    ensures
        forall|i: int| 0 <= i < words(s).len() ==> is_word(#[trigger] words(s)[i]),
{
    lemma_word_split_shape(s);
    let (d, c) = word_split(s);
    if c.len() > 0 {
        assert(is_word(c));
        assert forall|i: int| 0 <= i < words(s).len() implies is_word(#[trigger] words(s)[i]) by {
            if i < d.len() {
                assert(words(s)[i] == d[i]);
            }
        }
    }
}

/// Every word of every parsed command is nonempty and holds no whitespace.
pub proof fn law_parsed_words(text: Seq<char>)
    ensures
        forall|k: int, i: int|
            0 <= k < parse_spec(text).len() && 0 <= i < parse_spec(text)[k].len() ==> is_word(
                #[trigger] parse_spec(text)[k][i],
            ),
{
    lemma_parse_lines_words(lines(text));
}

proof fn lemma_parse_lines_words(ls: Seq<Seq<char>>)
    ensures
        forall|k: int, i: int|
            0 <= k < parse_lines(ls).len() && 0 <= i < parse_lines(ls)[k].len() ==> is_word(
                #[trigger] parse_lines(ls)[k][i],
            ),
    decreases ls.len(),
{
    if ls.len() > 0 {
        lemma_parse_lines_words(ls.drop_last());
        let body = crate::text::strip_comment(ls.last());
        lemma_words_shape(body);
        let rest = parse_lines(ls.drop_last());
        if body.len() > 0 {
            let p = parse_lines(ls);
            assert(p == rest.push(words(body)));
            assert forall|k: int, i: int| 0 <= k < p.len() && 0 <= i < p[k].len() implies is_word(
                #[trigger] p[k][i],
            ) by {
                if k < rest.len() {
                    assert(p[k] == rest[k]);
                    assert(is_word(rest[k][i]));
                } else {
                    assert(p[k] == words(body));
                }
            }
        }
    }
}

proof fn lemma_line_split_no_newline(c: Seq<char>)
    requires
        forall|i: int| 0 <= i < c.len() ==> c[i] != '\n',
    ensures
        line_split(c) == (Seq::<Seq<char>>::empty(), c),
    decreases c.len(),
{
    if c.len() > 0 {
        lemma_line_split_no_newline(c.drop_last());
        assert(c.drop_last().push(c.last()) == c);
    }
}

/// Lines with nothing before their `//` (empty lines and comment lines) are
/// ignored: inserting one between whole lines changes no command.
pub proof fn law_comment_lines_ignored(t1: Seq<char>, c: Seq<char>, t2: Seq<char>)
    requires
        t1.len() == 0 || t1.last() == '\n',
        forall|i: int| 0 <= i < c.len() ==> c[i] != '\n',
        strip_comment(c).len() == 0,
    ensures
        parse_spec(t1 + (c.push('\n') + t2)) == parse_spec(t1 + t2),
{
    let line = c.push('\n');
    law_parse_concat(t1, line + t2);
    law_parse_concat(line, t2);
    law_parse_concat(t1, t2);
    lemma_line_split_no_newline(c);
    assert(line.drop_last() == c);
    assert(line_split(line) == (seq![trim_cr(c)], Seq::<char>::empty()));
    assert(strip_comment(trim_cr(c)).len() == 0) by {
        if c.len() >= 2 {
            assert(c[0] == '/' && c[1] == '/');
            if c.len() > 0 && c.last() == '\r' {
                assert(trim_cr(c)[0] == '/' && trim_cr(c)[1] == '/');
            }
        }
    }
    assert(lines(line) == seq![trim_cr(c)]);
    assert(seq![trim_cr(c)].drop_last() == Seq::<Seq<char>>::empty());
    assert(seq![trim_cr(c)].last() == trim_cr(c));
    assert(parse_lines(Seq::<Seq<char>>::empty()) == Seq::<Seq<Seq<char>>>::empty());
    assert(parse_lines(seq![trim_cr(c)]) == Seq::<Seq<Seq<char>>>::empty());
    assert(parse_spec(line) == Seq::<Seq<Seq<char>>>::empty());
    assert(Seq::<Seq<Seq<char>>>::empty() + parse_spec(t2) == parse_spec(t2));
}

/// Labels, `goto` and `if-goto` are qualified by the function that the last
/// `function` command before them opened, whatever lies in between (`return`
/// included): where `cmds[j]` is the last `function` command before position `k`,
/// the function in force at `k` is the one `cmds[j]` names.
pub proof fn law_function_scope(cmds: Seq<Seq<Seq<char>>>, j: nat, k: nat)
    requires
        j < k <= cmds.len(),
        command_type_of(cmds[j as int]) == Some(CommandType::CFunction),
        forall|m: int|
            j < m < k ==> command_type_of(#[trigger] cmds[m]) != Some(CommandType::CFunction),
    ensures
        function_before(cmds, k) == arg1_of(cmds[j as int]),
    decreases k,
{
    if k - 1 > j {
        assert(command_type_of(cmds[k - 1]) != Some(CommandType::CFunction));
        law_function_scope(cmds, j, (k - 1) as nat);
    }
}

/// Before the first `function` command no function is in force: labels stand
/// unqualified.
pub proof fn law_no_function_scope(cmds: Seq<Seq<Seq<char>>>, k: nat)
    requires
        k <= cmds.len(),
        forall|m: int| 0 <= m < k ==> command_type_of(#[trigger] cmds[m]) != Some(
            CommandType::CFunction,
        ),
    ensures
        function_before(cmds, k) == Seq::<char>::empty(),
    decreases k,
{
    if k > 0 {
        assert(command_type_of(cmds[k - 1]) != Some(CommandType::CFunction));
        law_no_function_scope(cmds, (k - 1) as nat);
    }
}

/// A `label L` at position `k` of a file, after the function `g` (the last
/// `function` command before it, with a nonempty name) is emitted as `(g$L)`.
pub proof fn law_label_in_function(
    cmds: Seq<Seq<Seq<char>>>,
    j: nat,
    k: nat,
    id: Seq<char>,
    file_name: Seq<char>,
)
    requires
        j < k < cmds.len(),
        command_type_of(cmds[j as int]) == Some(CommandType::CFunction),
        arg1_of(cmds[j as int]).len() > 0,
        forall|m: int|
            j < m < k ==> command_type_of(#[trigger] cmds[m]) != Some(CommandType::CFunction),
        command_type_of(cmds[k as int]) == Some(CommandType::CLabel),
    ensures
        command_code(cmds[k as int], id, function_before(cmds, k), file_name) == "("@ + (arg1_of(
            cmds[j as int],
        ) + "$"@ + arg1_of(cmds[k as int])) + ")\n"@,
{
    law_function_scope(cmds, j, k);
}

/// `s` repeated `n` times is `n` copies of `s` side by side.
pub proof fn law_repeat(s: Seq<char>, n: nat)
    ensures
        repeat(s, n).len() == n * s.len(),
        forall|b: int, i: int|
            0 <= b < n && 0 <= i < s.len() ==> #[trigger] repeat(s, n)[b * s.len() + i] == s[i],
    decreases n,
{
    if n > 0 {
        law_repeat(s, (n - 1) as nat);
        let r = repeat(s, (n - 1) as nat);
        assert(repeat(s, n) == r + s);
        assert(n * s.len() == (n - 1) * s.len() + s.len()) by (nonlinear_arith);
        assert forall|b: int, i: int| 0 <= b < n && 0 <= i < s.len() implies #[trigger] repeat(
            s,
            n,
        )[b * s.len() + i] == s[i] by {
            if b < n - 1 {
                assert(b * s.len() + i < (n - 1) * s.len()) by (nonlinear_arith)
                    requires
                        b < n - 1,
                        0 <= i < s.len(),
                ;
            } else {
                assert(b * s.len() == (n - 1) * s.len());
            }
        }
    }
}

/// Pushing from a segment addressed through a base (every segment but `static`
/// and `constant`) reads the cell `index` steps past the base: `A` is stepped
/// exactly `index` times, then `D = M` is pushed.
pub proof fn law_push_steps(segment: Seq<char>, index: nat, file_name: Seq<char>)
    requires
        segment != "static"@,
        segment != "constant"@,
    ensures
        push_code(segment, index, file_name) == push_base(segment, index, file_name) + repeat(
            "A=A+1\n"@,
            index,
        ) + "D=M\n"@ + "@SP\nA=M\nM=D\n@SP\nM=M+1\n"@,
{
}

/// Popping into a segment addressed through a base (every segment but `static`
/// and `constant`) stores into the cell `index` steps past the base.
pub proof fn law_pop_steps(segment: Seq<char>, index: nat, file_name: Seq<char>)
    requires
        segment != "static"@,
        segment != "constant"@,
    ensures
        pop_code(segment, index, file_name) == "@SP\nA=M-1\nD=M\n"@ + pop_base(
            segment,
            index,
            file_name,
        ) + repeat("A=A+1\n"@, index) + "M=D\n@SP\nM=M-1\n"@,
{
}

/// The bases of the segments: `argument`, `local`, `this` and `that` go through
/// the pointers `ARG`, `LCL`, `THIS`, `THAT`; `pointer` starts at `R3`, `temp` at
/// `R5`; `static index` is the variable `file_name.index`; `constant index` is the
/// number itself. Push and pop use the same bases.
pub proof fn law_segment_bases(index: nat, file_name: Seq<char>)
    ensures
        push_base("argument"@, index, file_name) == "@ARG\nA=M\n"@,
        push_base("local"@, index, file_name) == "@LCL\nA=M\n"@,
        push_base("this"@, index, file_name) == "@THIS\nA=M\n"@,
        push_base("that"@, index, file_name) == "@THAT\nA=M\n"@,
        push_base("pointer"@, index, file_name) == "@R3\n"@,
        push_base("temp"@, index, file_name) == "@R5\n"@,
        push_base("static"@, index, file_name) == "@"@ + file_name + "."@ + decimal(index)
            + "\n"@,
        push_base("constant"@, index, file_name) == "@"@ + decimal(index) + "\n"@,
        pop_base("argument"@, index, file_name) == "@ARG\nA=M\n"@,
        pop_base("local"@, index, file_name) == "@LCL\nA=M\n"@,
        pop_base("this"@, index, file_name) == "@THIS\nA=M\n"@,
        pop_base("that"@, index, file_name) == "@THAT\nA=M\n"@,
        pop_base("pointer"@, index, file_name) == "@R3\n"@,
        pop_base("temp"@, index, file_name) == "@R5\n"@,
        pop_base("static"@, index, file_name) == "@"@ + file_name + "."@ + decimal(index)
            + "\n"@,
{
    lemma_segment_names_distinct();
}

proof fn lemma_segment_names_distinct()
    ensures
        "local"@ != "argument"@,
        "static"@ != "argument"@,
        "static"@ != "local"@,
        "constant"@ != "argument"@,
        "constant"@ != "local"@,
        "constant"@ != "static"@,
        "this"@ != "argument"@,
        "this"@ != "local"@,
        "this"@ != "static"@,
        "this"@ != "constant"@,
        "that"@ != "argument"@,
        "that"@ != "local"@,
        "that"@ != "static"@,
        "that"@ != "constant"@,
        "that"@ != "this"@,
        "pointer"@ != "argument"@,
        "pointer"@ != "local"@,
        "pointer"@ != "static"@,
        "pointer"@ != "constant"@,
        "pointer"@ != "this"@,
        "pointer"@ != "that"@,
        "temp"@ != "argument"@,
        "temp"@ != "local"@,
        "temp"@ != "static"@,
        "temp"@ != "constant"@,
        "temp"@ != "this"@,
        "temp"@ != "that"@,
        "temp"@ != "pointer"@,
{
    reveal_strlit("argument");
    reveal_strlit("local");
    reveal_strlit("static");
    reveal_strlit("constant");
    reveal_strlit("this");
    reveal_strlit("that");
    reveal_strlit("pointer");
    reveal_strlit("temp");
    assert("argument"@.len() == 8);
    assert("local"@.len() == 5);
    assert("static"@.len() == 6);
    assert("constant"@.len() == 8);
    assert("this"@.len() == 4);
    assert("that"@.len() == 4);
    assert("pointer"@.len() == 7);
    assert("temp"@.len() == 4);
    assert("constant"@[0] != "argument"@[0]);
    assert("that"@[2] != "this"@[2]);
    assert("temp"@[1] != "this"@[1]);
    assert("temp"@[1] != "that"@[1]);
}

/// `push constant n` loads the number `n` itself; `pop constant n` emits nothing;
/// `push static n` and `pop static n` address `file_name.n` with no stepping.
pub proof fn law_constant_and_static(index: nat, file_name: Seq<char>)
    ensures
        push_code("constant"@, index, file_name) == "@"@ + decimal(index) + "\n"@ + "D=A\n"@
            + "@SP\nA=M\nM=D\n@SP\nM=M+1\n"@,
        pop_code("constant"@, index, file_name) == Seq::<char>::empty(),
        push_code("static"@, index, file_name) == "@"@ + file_name + "."@ + decimal(index)
            + "\n"@ + "D=M\n"@ + "@SP\nA=M\nM=D\n@SP\nM=M+1\n"@,
        pop_code("static"@, index, file_name) == "@SP\nA=M-1\nD=M\n"@ + ("@"@ + file_name
            + "."@ + decimal(index) + "\n"@) + "M=D\n@SP\nM=M-1\n"@,
{
    law_segment_bases(index, file_name);
    lemma_segment_names_distinct();
    assert("@"@ + decimal(index) + "\n"@ + Seq::<char>::empty() == "@"@ + decimal(index)
        + "\n"@);
    assert("@"@ + file_name + "."@ + decimal(index) + "\n"@ + Seq::<char>::empty() == "@"@
        + file_name + "."@ + decimal(index) + "\n"@);
    assert("@SP\nA=M-1\nD=M\n"@ + ("@"@ + file_name + "."@ + decimal(index) + "\n"@)
        + Seq::<char>::empty() == "@SP\nA=M-1\nD=M\n"@ + ("@"@ + file_name + "."@ + decimal(
        index,
    ) + "\n"@));
}

/// The code of `call f n` before the number of arguments: push the return address
/// and the caller's `LCL`, `ARG`, `THIS`, `THAT`, then start `ARG = SP - 5 - n`.
pub open spec fn call_head(function_name: Seq<char>, id: Seq<char>) -> Seq<char> {
    "@"@ + function_name + "return"@ + id + "\nD=A\n@SP\nA=M\nM=D\n@SP\nM=M+1\n"@
        + "@LCL\nD=M\n@SP\nA=M\nM=D\n@SP\nM=M+1\n"@ + "@ARG\nD=M\n@SP\nA=M\nM=D\n@SP\nM=M+1\n"@
        + "@THIS\nD=M\n@SP\nA=M\nM=D\n@SP\nM=M+1\n"@ + "@THAT\nD=M\n@SP\nA=M\nM=D\n@SP\nM=M+1\n"@
        + "@SP\nD=M\n@5\nD=D-A\n@"@
}

/// The code of `call f n` after the number of arguments: finish `ARG`, set
/// `LCL = SP`, jump to `f`, and define the return label.
pub open spec fn call_tail(function_name: Seq<char>, id: Seq<char>) -> Seq<char> {
    "\nD=D-A\n@ARG\nM=D\n"@ + ("@SP\nD=M\n@LCL\nM=D\n"@ + ("@"@ + (function_name + ("\n0;JMP\n"@
        + ("("@ + (function_name + ("return"@ + (id + ")\n"@))))))))
}

/// `call f n` sets `ARG = SP - 5 - n`: the number it subtracts after the 5 saved
/// words is `n` itself, written in decimal, and reads back as `n`; the rest of the
/// code does not depend on `n`.
pub proof fn law_call_arguments(function_name: Seq<char>, num_args: usize, id: Seq<char>)
    ensures
        call_code(function_name, num_args as nat, id) == call_head(function_name, id) + decimal(
            num_args as nat,
        ) + call_tail(function_name, id),
        parse_usize_spec(
            call_code(function_name, num_args as nat, id).subrange(
                call_head(function_name, id).len() as int,
                (call_head(function_name, id).len() + decimal(num_args as nat).len()) as int,
            ),
        ) == Some(num_args),
{
    let h = call_head(function_name, id);
    let d = decimal(num_args as nat);
    let t = call_tail(function_name, id);
    assert(call_code(function_name, num_args as nat, id) =~= h + d + t);
    assert((h + d + t).subrange(h.len() as int, (h.len() + d.len()) as int) =~= d);
    law_decimal_parse_roundtrip(num_args);
}

/// Calls with different numbers of arguments give different code.
pub proof fn law_call_arguments_distinct(
    function_name: Seq<char>,
    n: usize,
    m: usize,
    id: Seq<char>,
)
    requires
        n != m,
    ensures
        call_code(function_name, n as nat, id) != call_code(function_name, m as nat, id),
{
    law_call_arguments(function_name, n, id);
    law_call_arguments(function_name, m, id);
    lemma_decimal_digits(n as nat);
    lemma_decimal_digits(m as nat);
    let h = call_head(function_name, id);
    let t = call_tail(function_name, id);
    if call_code(function_name, n as nat, id) == call_code(function_name, m as nat, id) {
        let a = h + decimal(n as nat) + t;
        assert(a.subrange(h.len() as int, a.len() - t.len()) =~= decimal(n as nat));
        let b = h + decimal(m as nat) + t;
        assert(b.subrange(h.len() as int, b.len() - t.len()) =~= decimal(m as nat));
        law_decimal_injective(n as nat, m as nat);
    }
}

/// A line ended by `\r\n` is the text before the `\r\n`: the carriage return is
/// part of the terminator, not of the line.
pub proof fn law_lines_crlf(t1: Seq<char>, t2: Seq<char>)
    requires
        forall|i: int| 0 <= i < t1.len() ==> t1[i] != '\n',
    ensures
        lines(t1 + seq!['\r', '\n'] + t2) == seq![t1] + lines(t2),
{
    let x = t1 + seq!['\r', '\n'];
    lemma_line_split_no_newline(t1);
    assert(x.drop_last() == t1.push('\r'));
    assert(t1.push('\r').drop_last() == t1);
    assert(line_split(t1.push('\r')) == (Seq::<Seq<char>>::empty(), t1.push('\r')));
    assert(trim_cr(t1.push('\r')) == t1);
    assert(line_split(x) == (seq![t1], Seq::<char>::empty()));
    lemma_line_split_concat(x, t2);
    let (d2, c2) = line_split(t2);
    assert((seq![t1] + d2).push(c2) == seq![t1] + d2.push(c2));
}

/// A line ended by `\n` alone, with no `\r` before it, is the text before the `\n`.
pub proof fn law_lines_lf(t1: Seq<char>, t2: Seq<char>)
    requires
        forall|i: int| 0 <= i < t1.len() ==> t1[i] != '\n',
        t1.len() == 0 || t1.last() != '\r',
    ensures
        lines(t1 + seq!['\n'] + t2) == seq![t1] + lines(t2),
{
    let x = t1 + seq!['\n'];
    lemma_line_split_no_newline(t1);
    assert(x.drop_last() == t1);
    assert(line_split(x) == (seq![t1], Seq::<char>::empty()));
    lemma_line_split_concat(x, t2);
    let (d2, c2) = line_split(t2);
    assert((seq![t1] + d2).push(c2) == seq![t1] + d2.push(c2));
}

/// A last line with no line feed is kept as it is; an empty text has no lines.
pub proof fn law_lines_last(t1: Seq<char>)
    requires
        forall|i: int| 0 <= i < t1.len() ==> t1[i] != '\n',
    ensures
        t1.len() == 0 ==> lines(t1) == Seq::<Seq<char>>::empty(),
        t1.len() > 0 ==> lines(t1) == seq![t1],
{
    lemma_line_split_no_newline(t1);
}

/// A blank line ended by `\r\n` gives no command, like a blank line ended by `\n`.
pub proof fn law_blank_crlf_line_ignored(t1: Seq<char>, t2: Seq<char>)
    requires
        t1.len() == 0 || t1.last() == '\n',
    ensures
        parse_spec(t1 + (seq!['\r', '\n'] + t2)) == parse_spec(t1 + t2),
{
    let crlf = seq!['\r', '\n'];
    law_parse_concat(t1, crlf + t2);
    law_parse_concat(t1, t2);
    law_lines_crlf(Seq::<char>::empty(), t2);
    assert(Seq::<char>::empty() + crlf + t2 == crlf + t2);
    let e = Seq::<char>::empty();
    assert(seq![e].drop_last() == Seq::<Seq<char>>::empty());
    assert(strip_comment(e) == e);
    assert(parse_lines(Seq::<Seq<char>>::empty()) == Seq::<Seq<Seq<char>>>::empty());
    assert(parse_lines(seq![e]) == Seq::<Seq<Seq<char>>>::empty());
    lemma_parse_lines_concat(seq![e], lines(t2));
    assert(Seq::<Seq<Seq<char>>>::empty() + parse_lines(lines(t2)) == parse_lines(lines(t2)));
}

/// A `label L` with no function in force is emitted as `(L)`, unqualified.
pub proof fn law_label_outside_function(
    cmds: Seq<Seq<Seq<char>>>,
    k: nat,
    id: Seq<char>,
    file_name: Seq<char>,
)
    requires
        k < cmds.len(),
        forall|m: int| 0 <= m < k ==> command_type_of(#[trigger] cmds[m]) != Some(
            CommandType::CFunction,
        ),
        command_type_of(cmds[k as int]) == Some(CommandType::CLabel),
    ensures
        command_code(cmds[k as int], id, function_before(cmds, k), file_name) == "("@ + arg1_of(
            cmds[k as int],
        ) + ")\n"@,
{
    law_no_function_scope(cmds, k);
}

/// `function f n` defines the label `(f)` and then pushes the constant 0 once per
/// local variable, `n` times.
pub proof fn law_function_entry(function_name: Seq<char>, n_locals: nat)
    ensures
        function_code(function_name, n_locals) == "("@ + function_name + ")\n"@ + repeat(
            "@"@ + decimal(0) + "\n"@ + "D=A\n"@ + "@SP\nA=M\nM=D\n@SP\nM=M+1\n"@,
            n_locals,
        ),
{
    law_constant_and_static(0, Seq::<char>::empty());
}

} // verus!
