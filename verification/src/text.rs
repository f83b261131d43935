use vstd::prelude::*;

verus! {

/// `String::push` appends one character to the end of the string (std documents
/// exactly this); the contract states that and nothing more.
pub assume_specification[ String::push ](string: &mut String, ch: char)
    ensures
        final(string)@ == old(string)@.push(ch),
;

/// The characters of `s`, in order.
pub fn chars_of(s: &str) -> (v: Vec<char>)
    ensures
        v@ == s@,
{
    let mut v: Vec<char> = Vec::new();
    let mut chars = s.chars();
    for c in it: chars
        invariant
            v@ == it.history(),
    {
        v.push(c);
    }
    v
}

/// A string holding exactly the characters of `v`.
pub fn string_of(v: &Vec<char>) -> (s: String)
    ensures
        s@ == v@,
{
    let mut s = String::new();
    let mut i: usize = 0;
    while i < v.len()
        invariant
            i <= v@.len(),
            s@ == v@.take(i as int),
        decreases v@.len() - i,
    {
        s.push(v[i]);
        i = i + 1;
        assert(v@.take(i as int) == v@.take(i - 1).push(v@[i - 1]));
    }
    assert(v@.take(v@.len() as int) == v@);
    s
}

/// Character-wise equality of two strings.
pub fn str_eq(a: &str, b: &str) -> (r: bool)
    ensures
        r == (a@ == b@),
{
    let x = chars_of(a);
    let y = chars_of(b);
    if x.len() != y.len() {
        return false;
    }
    let mut i: usize = 0;
    while i < x.len()
        invariant
            x@ == a@,
            y@ == b@,
            x@.len() == y@.len(),
            i <= x@.len(),
            forall|j: int| 0 <= j < i ==> x@[j] == y@[j],
        decreases x@.len() - i,
    {
        if x[i] != y[i] {
            return false;
        }
        i = i + 1;
    }
    assert(x@ =~= y@);
    true
}

/// The decimal digit character for `d` (`d < 10`).
pub open spec fn digit_char(d: nat) -> char {
    (48 + d) as char
}

/// Whether `c` is one of the ASCII digits `0`..`9`.
pub open spec fn is_digit(c: char) -> bool {
    48 <= (c as int) <= 57
}

/// The value of an ASCII digit.
pub open spec fn digit_value(c: char) -> nat {
    ((c as int) - 48) as nat
}

/// The decimal representation of `n`: no sign, no leading zero.
pub open spec fn decimal(n: nat) -> Seq<char>
    decreases n,
{
    if n < 10 {
        seq![digit_char(n)]
    } else {
        decimal(n / 10).push(digit_char(n % 10))
    }
}

/// The number that a sequence of decimal digits denotes (most significant first).
pub open spec fn digits_value(s: Seq<char>) -> nat
    decreases s.len(),
{
    if s.len() == 0 {
        0
    } else {
        digits_value(s.drop_last()) * 10 + digit_value(s.last())
    }
}

/// Whether every character of `s` is an ASCII digit.
pub open spec fn all_digits(s: Seq<char>) -> bool {
    forall|i: int| 0 <= i < s.len() ==> is_digit(#[trigger] s[i])
}

/// What `str::parse::<usize>` gives for `s`: an optional `+`, then one or more ASCII
/// digits whose value fits in `usize`; `None` for every other input.
pub open spec fn parse_usize_spec(s: Seq<char>) -> Option<usize> {
    let d = if s.len() > 1 && s[0] == '+' { s.drop_first() } else { s };
    if d.len() > 0 && all_digits(d) && digits_value(d) <= usize::MAX {
        Some(digits_value(d) as usize)
    } else {
        None
    }
}

proof fn lemma_digits_value_prefix(s: Seq<char>, k: int)
    requires
        0 <= k <= s.len(),
    ensures
        digits_value(s.take(k)) <= digits_value(s),
    decreases s.len(),
{
    if k < s.len() {
        assert(s.take(k) == s.drop_last().take(k));
        lemma_digits_value_prefix(s.drop_last(), k);
    } else {
        assert(s.take(k) == s);
    }
}

/// `str::parse::<usize>` on `s`, `None` where it returns an error.
pub fn parse_usize(s: &str) -> (r: Option<usize>)
    ensures
        r == parse_usize_spec(s@),
{
    let cs = chars_of(s);
    let start: usize = if cs.len() > 1 && cs[0] == '+' { 1 } else { 0 };
    let ghost d = if s@.len() > 1 && s@[0] == '+' { s@.drop_first() } else { s@ };
    assert(d == cs@.skip(start as int));
    if start >= cs.len() {
        return None;
    }
    let mut acc: usize = 0;
    let mut i: usize = start;
    while i < cs.len()
        invariant
            cs@ == s@,
            d == cs@.skip(start as int),
            d == (if s@.len() > 1 && s@[0] == '+' { s@.drop_first() } else { s@ }),
            start <= i <= cs@.len(),
            all_digits(d.take(i - start)),
            acc == digits_value(d.take(i - start)),
        decreases cs@.len() - i,
    {
        let c = cs[i];
        if !('0' <= c && c <= '9') {
            assert(!is_digit(d[i - start]));
            return None;
        }
        let v = c as u32;
        assert(v as int == c as int);
        let dv = (v - 48) as usize;
        let ghost pre = d.take(i - start);
        let ghost next = d.take(i - start + 1);
        assert(next.drop_last() == pre);
        assert(next.last() == c);
        assert(all_digits(next));
        proof {
            lemma_digits_value_prefix(d, i - start + 1);
        }
        match acc.checked_mul(10) {
            None => {
                return None;
            },
            Some(x) => match x.checked_add(dv) {
                None => {
                    return None;
                },
                Some(y) => {
                    acc = y;
                },
            },
        }
        i = i + 1;
    }
    assert(d.take(i - start) == d);
    Some(acc)
}

/// The decimal representation of `n`.
pub fn usize_to_string(n: usize) -> (s: String)
    ensures
        s@ == decimal(n as nat),
{
    // digits least significant first
    let mut rev: Vec<char> = Vec::new();
    let mut m: usize = n;
    loop
        invariant_except_break
            decimal(n as nat) == decimal(m as nat) + rev@.reverse(),
        ensures
            decimal(n as nat) == rev@.reverse(),
        decreases m,
    {
        let d: usize = m % 10;
        let c: char = ((d as u8) + 48u8) as char;
        assert(c == digit_char(d as nat));
        let ghost old_rev = rev@;
        rev.push(c);
        if m < 10 {
            assert(decimal(m as nat) == seq![c]);
            assert(rev@.reverse() =~= seq![c] + old_rev.reverse());
            break;
        }
        assert(decimal(m as nat) == decimal((m / 10) as nat).push(c));
        assert(rev@.reverse() =~= seq![c] + old_rev.reverse());
        m = m / 10;
    }
    let mut s = String::new();
    let mut i: usize = rev.len();
    while i > 0
        invariant
            i <= rev@.len(),
            s@ == rev@.reverse().take(rev@.len() - i),
        decreases i,
    {
        i = i - 1;
        s.push(rev[i]);
        assert(rev@.reverse().take(rev@.len() - i) =~= rev@.reverse().take(rev@.len() - i - 1).push(rev@[i as int]));
    }
    assert(rev@.reverse().take(rev@.len() as int) =~= rev@.reverse());
    s
}

/// `char::is_whitespace`: the Unicode `White_Space` property.
pub open spec fn is_whitespace(c: char) -> bool {
    let v = c as int;
    ||| 0x09 <= v <= 0x0D
    ||| v == 0x20
    ||| v == 0x85
    ||| v == 0xA0
    ||| v == 0x1680
    ||| 0x2000 <= v <= 0x200A
    ||| v == 0x2028
    ||| v == 0x2029
    ||| v == 0x202F
    ||| v == 0x205F
    ||| v == 0x3000
}

/// Whether `c` is a whitespace character.
pub fn char_is_whitespace(c: char) -> (r: bool)
    ensures
        r == is_whitespace(c),
{
    ('\u{9}' <= c && c <= '\u{d}') || c == ' ' || c == '\u{85}' || c == '\u{a0}' || c
        == '\u{1680}' || ('\u{2000}' <= c && c <= '\u{200a}') || c == '\u{2028}' || c
        == '\u{2029}' || c == '\u{202f}' || c == '\u{205f}' || c == '\u{3000}'
}

/// The views of a sequence of strings.
pub open spec fn strings_view(v: Seq<String>) -> Seq<Seq<char>> {
    v.map_values(|w: String| w@)
}

/// Splitting `t` at line feeds, read from the left: the lines ended so far (without
/// their line feed, and without a carriage return just before it) and the
/// characters of the line not yet ended.
pub open spec fn line_split(t: Seq<char>) -> (Seq<Seq<char>>, Seq<char>)
    decreases t.len(),
{
    if t.len() == 0 {
        (seq![], seq![])
    } else {
        let (done, cur) = line_split(t.drop_last());
        if t.last() == '\n' {
            (done.push(trim_cr(cur)), seq![])
        } else {
            (done, cur.push(t.last()))
        }
    }
}

/// `l` without one trailing carriage return.
pub open spec fn trim_cr(l: Seq<char>) -> Seq<char> {
    if l.len() > 0 && l.last() == '\r' {
        l.drop_last()
    } else {
        l
    }
}

/// The lines of `t` as a buffered reader yields them: each line without its `\n`
/// or `\r\n`; a last line without a line feed is kept as it is, and a text that
/// ends in a line feed has no empty line after it.
pub open spec fn lines(t: Seq<char>) -> Seq<Seq<char>> {
    let (done, cur) = line_split(t);
    if cur.len() == 0 {
        done
    } else {
        done.push(cur)
    }
}

/// The part of `l` before its first `//` (all of `l` where it has none).
pub open spec fn strip_comment(l: Seq<char>) -> Seq<char>
    decreases l.len(),
{
    if l.len() < 2 {
        l
    } else if l[0] == '/' && l[1] == '/' {
        seq![]
    } else {
        seq![l[0]] + strip_comment(l.drop_first())
    }
}

/// Splitting `s` at whitespace, read from the left: the words ended so far and the
/// characters of the word not yet ended.
pub open spec fn word_split(s: Seq<char>) -> (Seq<Seq<char>>, Seq<char>)
    decreases s.len(),
{
    if s.len() == 0 {
        (seq![], seq![])
    } else {
        let (done, cur) = word_split(s.drop_last());
        if is_whitespace(s.last()) {
            if cur.len() > 0 {
                (done.push(cur), seq![])
            } else {
                (done, seq![])
            }
        } else {
            (done, cur.push(s.last()))
        }
    }
}

/// The words of `s` as `str::split_whitespace` yields them: the maximal runs of
/// characters that are not whitespace, in order.
pub open spec fn words(s: Seq<char>) -> Seq<Seq<char>> {
    let (done, cur) = word_split(s);
    if cur.len() > 0 {
        done.push(cur)
    } else {
        done
    }
}

/// The part of `l` before its first `//`.
pub fn strip_comment_chars(l: &Vec<char>) -> (r: Vec<char>)
    ensures
        r@ == strip_comment(l@),
{
    let mut i: usize = 0;
    assert(l@.skip(0) == l@);
    assert(l@.take(0) + l@ == l@);
    while i < l.len() && i + 1 < l.len()
        invariant
            i <= l@.len(),
            strip_comment(l@) == l@.take(i as int) + strip_comment(l@.skip(i as int)),
        decreases l@.len() - i,
    {
        if l[i] == '/' && l[i + 1] == '/' {
            let mut r: Vec<char> = Vec::new();
            let mut j: usize = 0;
            while j < i
                invariant
                    j <= i < l@.len(),
                    r@ == l@.take(j as int),
                decreases i - j,
            {
                r.push(l[j]);
                j = j + 1;
                assert(l@.take(j as int) == l@.take(j - 1).push(l@[j - 1]));
            }
            assert(strip_comment(l@.skip(i as int)) == Seq::<char>::empty());
            assert(r@ + Seq::<char>::empty() == r@);
            return r;
        }
        assert(l@.skip(i as int).drop_first() == l@.skip(i + 1));
        assert(l@.take(i + 1) == l@.take(i as int) + seq![l@[i as int]]);
        i = i + 1;
    }
    assert(l@.take(i as int) + l@.skip(i as int) == l@);
    l.clone()
}

/// The words of `s`, as `str::split_whitespace` yields them.
pub fn split_words(s: &Vec<char>) -> (r: Vec<String>)
    ensures
        strings_view(r@) == words(s@),
{
    let mut out: Vec<String> = Vec::new();
    let mut cur: Vec<char> = Vec::new();
    let mut i: usize = 0;
    while i < s.len()
        invariant
            i <= s@.len(),
            word_split(s@.take(i as int)) == (strings_view(out@), cur@),
        decreases s@.len() - i,
    {
        let c = s[i];
        assert(s@.take(i + 1).drop_last() == s@.take(i as int));
        if char_is_whitespace(c) {
            if cur.len() > 0 {
                let ghost before = out@;
                let w = string_of(&cur);
                out.push(w);
                assert(strings_view(out@) =~= strings_view(before).push(w@));
                cur = Vec::new();
            }
        } else {
            cur.push(c);
        }
        i = i + 1;
    }
    assert(s@.take(i as int) == s@);
    if cur.len() > 0 {
        let ghost before = out@;
        let w = string_of(&cur);
        out.push(w);
        assert(strings_view(out@) =~= strings_view(before).push(w@));
    }
    out
}

} // verus!
