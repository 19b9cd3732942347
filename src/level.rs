//! Level data: goals and test cases, and the parsers for the pieces of a
//! level file (numbers, number lists, sequences, test cases, section labels).
use vstd::prelude::*;

use crate::error::{LoadFault, ParseError};
use crate::text::{chars_of, is_letter};

verus! {

/// One test of a level: an input sequence and the output it should give.
#[derive(Debug, Default)]
pub struct Test {
    pub input: Vec<usize>,
    pub output: Vec<usize>,
}

/// A level's targets: the program size and the cycle count to beat.
#[derive(Debug, Default)]
pub struct Goals {
    pub size: usize,
    pub speed: usize,
}

/// A level: its goals and its tests.
#[derive(Debug, Default)]
pub struct Level {
    pub goals: Goals,
    pub tests: Vec<Test>,
}

/// The name of a section of a level file.
#[derive(Debug)]
pub struct Label(pub String);

/// A bracketed list of numbers.
#[derive(Debug)]
pub struct Sequence(pub Vec<usize>);

/// An input sequence and the output sequence it should give.
#[derive(Debug)]
pub struct TestCase {
    pub input: Sequence,
    pub output: Sequence,
}

pub open spec fn is_digit(c: char) -> bool {
    '0' <= c && c <= '9'
}

/// A space or a tab.
pub open spec fn is_blank(c: char) -> bool {
    c == ' ' || c == '\t'
}

/// A space, a tab, a carriage return or a newline.
pub open spec fn is_multispace(c: char) -> bool {
    c == ' ' || c == '\t' || c == '\r' || c == '\n'
}

/// The kinds of characters that the level grammar groups into runs.
pub enum CharClass {
    Digit,
    Blank,
    Letter,
    Multispace,
}

pub open spec fn in_class(c: char, class: CharClass) -> bool {
    match class {
        CharClass::Digit => is_digit(c),
        CharClass::Blank => is_blank(c),
        CharClass::Letter => is_letter(c),
        CharClass::Multispace => is_multispace(c),
    }
}

/// The end of the run of characters with property `p` that starts at `i`.
pub open spec fn run_end(s: Seq<char>, i: int, p: CharClass) -> int
    decreases s.len() - i,
{
    if i >= s.len() || i < 0 {
        i
    } else if in_class(s[i], p) {
        run_end(s, i + 1, p)
    } else {
        i
    }
}

pub proof fn lemma_run_end_bounds(s: Seq<char>, i: int, p: CharClass)
    requires
        0 <= i <= s.len(),
    ensures
        i <= run_end(s, i, p) <= s.len(),
        forall|k: int| i <= k < run_end(s, i, p) ==> in_class(#[trigger] s[k], p),
    decreases s.len() - i,
{
    if i < s.len() && in_class(s[i], p) {
        lemma_run_end_bounds(s, i + 1, p);
    }
}

/// The value of a decimal digit.
pub open spec fn digit_value(c: char) -> nat {
    (c as u32 - '0' as u32) as nat
}

/// The decimal value of a string of digits.
pub open spec fn decimal(d: Seq<char>) -> nat
    decreases d.len(),
{
    if d.len() == 0 {
        0
    } else {
        decimal(d.drop_last()) * 10 + digit_value(d.last())
    }
}

/// A number at `i`: one or more digits whose value fits in `usize`; its value
/// and where it ends.
pub open spec fn number_at(s: Seq<char>, i: int) -> Option<(nat, int)> {
    let e = run_end(s, i, CharClass::Digit);
    if i < e && decimal(s.subrange(i, e)) <= usize::MAX {
        Some((decimal(s.subrange(i, e)), e))
    } else {
        None
    }
}

/// Further numbers after a number that ends at `i`, each after one or more
/// blanks; blanks not followed by a number are left.
pub open spec fn list_tail(s: Seq<char>, i: int) -> (Seq<nat>, int)
    decreases s.len() + 1 - i via list_tail_decreases
{
    let j = run_end(s, i, CharClass::Blank);
    if 0 <= i < j {
        match number_at(s, j) {
            Some((v, e)) => (seq![v] + list_tail(s, e).0, list_tail(s, e).1),
            None => (Seq::empty(), i),
        }
    } else {
        (Seq::empty(), i)
    }
}

#[via_fn]
proof fn list_tail_decreases(s: Seq<char>, i: int) {
    if 0 <= i <= s.len() {
        lemma_run_end_bounds(s, i, CharClass::Blank);
        let j = run_end(s, i, CharClass::Blank);
        lemma_run_end_bounds(s, j, CharClass::Digit);
    } else if i > s.len() {
    }
}

/// Numbers separated by blanks, possibly none, from `i`; and where they end.
pub open spec fn list_at(s: Seq<char>, i: int) -> (Seq<nat>, int) {
    match number_at(s, i) {
        Some((v, e)) => (seq![v] + list_tail(s, e).0, list_tail(s, e).1),
        None => (Seq::empty(), i),
    }
}

/// `[`, blanks, a list of numbers, blanks, `]`.
pub open spec fn sequence_at(s: Seq<char>, i: int) -> Option<(Seq<nat>, int)> {
    if 0 <= i < s.len() && s[i] == '[' {
        let j = run_end(s, i + 1, CharClass::Blank);
        let (l, k) = list_at(s, j);
        let m = run_end(s, k, CharClass::Blank);
        if m < s.len() && s[m] == ']' {
            Some((l, m + 1))
        } else {
            None
        }
    } else {
        None
    }
}

/// A sequence, blanks, `->`, blanks, a sequence.
pub open spec fn test_case_at(s: Seq<char>, i: int) -> Option<(Seq<nat>, Seq<nat>, int)> {
    match sequence_at(s, i) {
        Some((a, e)) => {
            let j = run_end(s, e, CharClass::Blank);
            if j + 1 < s.len() && s[j] == '-' && s[j + 1] == '>' {
                let k = run_end(s, j + 2, CharClass::Blank);
                match sequence_at(s, k) {
                    Some((b, f)) => Some((a, b, f)),
                    None => None,
                }
            } else {
                None
            }
        },
        None => None,
    }
}

/// Whitespace, one or more ASCII letters, `:` and a line ending (`\n` or
/// `\r\n`); the letters and where the line ending ends.
pub open spec fn label_at(s: Seq<char>, i: int) -> Option<(Seq<char>, int)> {
    let a = run_end(s, i, CharClass::Multispace);
    let b = run_end(s, a, CharClass::Letter);
    if a < b && b < s.len() && s[b] == ':' {
        if b + 1 < s.len() && s[b + 1] == '\n' {
            Some((s.subrange(a, b), b + 2))
        } else if b + 2 < s.len() && s[b + 1] == '\r' && s[b + 2] == '\n' {
            Some((s.subrange(a, b), b + 3))
        } else {
            None
        }
    } else {
        None
    }
}

/// The view of a list of numbers.
pub open spec fn nats(v: Seq<usize>) -> Seq<nat> {
    v.map_values(|x: usize| x as nat)
}

fn blanks(cs: &Vec<char>, i: usize) -> (r: usize)
    requires
        i <= cs@.len(),
    ensures
        r as int == run_end(cs@, i as int, CharClass::Blank),
        i <= r <= cs@.len(),
{
    let mut j = i;
    while j < cs.len() && (cs[j] == ' ' || cs[j] == '\t')
        invariant
            i <= j <= cs@.len(),
            run_end(cs@, j as int, CharClass::Blank) == run_end(cs@, i as int, CharClass::Blank),
        decreases cs@.len() - j,
    {
        j = j + 1;
    }
    j
}

proof fn lemma_decimal_grows(d: Seq<char>, k: int)
    requires
        0 <= k <= d.len(),
    ensures
        decimal(d.subrange(0, k)) <= decimal(d),
    decreases d.len() - k,
{
    if k < d.len() {
        lemma_decimal_grows(d, k + 1);
        let p = d.subrange(0, k + 1);
        assert(p.drop_last() =~= d.subrange(0, k));
        let x = decimal(d.subrange(0, k));
        assert(x <= x * 10) by (nonlinear_arith);
    } else {
        assert(d.subrange(0, k) =~= d);
    }
}

/// The number at `i`, if any.
fn number(cs: &Vec<char>, i: usize) -> (r: Option<(usize, usize)>)
    requires
        i <= cs@.len(),
    ensures
        match number_at(cs@, i as int) {
            Some((v, e)) => r matches Some((rv, re)) && rv as nat == v && re as int == e,
            None => r is None,
        },
        r matches Some((_, e)) ==> i < e <= cs@.len(),
{
    let ghost e = run_end(cs@, i as int, CharClass::Digit);
    proof {
        lemma_run_end_bounds(cs@, i as int, CharClass::Digit);
    }
    let mut j = i;
    let mut v: usize = 0;
    while j < cs.len() && '0' <= cs[j] && cs[j] <= '9'
        invariant
            i <= j <= cs@.len(),
            run_end(cs@, j as int, CharClass::Digit) == e,
            e == run_end(cs@, i as int, CharClass::Digit),
            e <= cs@.len(),
            v as nat == decimal(cs@.subrange(i as int, j as int)),
        decreases cs@.len() - j,
    {
        let d = (cs[j] as u32 - '0' as u32) as usize;
        assert(cs@.subrange(i as int, j + 1).drop_last() =~= cs@.subrange(i as int, j as int));
        assert(decimal(cs@.subrange(i as int, j + 1)) == v as nat * 10 + d as nat);
        let t = v.checked_mul(10);
        let w = match t {
            Some(t) => t.checked_add(d),
            None => None,
        };
        match w {
            Some(w) => {
                v = w;
            },
            None => {
                proof {
                    lemma_run_end_bounds(cs@, j + 1, CharClass::Digit);
                    assert(e >= j + 1);
                    assert(cs@.subrange(i as int, e).subrange(0, j + 1 - i) =~= cs@.subrange(
                        i as int,
                        j + 1,
                    ));
                    lemma_decimal_grows(cs@.subrange(i as int, e), j + 1 - i);
                }
                return None;
            },
        }
        j = j + 1;
    }
    if j == i {
        None
    } else {
        Some((v, j))
    }
}

/// The list of numbers at `i`.
fn list(cs: &Vec<char>, i: usize) -> (r: (Vec<usize>, usize))
    requires
        i <= cs@.len(),
    ensures
        (nats(r.0@), r.1 as int) == list_at(cs@, i as int),
        i <= r.1 <= cs@.len(),
{
    let mut out: Vec<usize> = Vec::new();
    match number(cs, i) {
        None => {
            assert(nats(out@) =~= Seq::<nat>::empty());
            return (out, i);
        },
        Some((v, e)) => {
            out.push(v);
            let mut pos = e;
            assert(list_at(cs@, i as int) == (seq![v as nat] + list_tail(cs@, e as int).0, list_tail(cs@, e as int).1));
            proof {
                lemma_run_end_bounds(cs@, i as int, CharClass::Digit);
                assert(nats(out@) =~= seq![v as nat]);
            }
            loop
                invariant
                    i <= pos <= cs@.len(),
                    list_at(cs@, i as int) == (
                        nats(out@) + list_tail(cs@, pos as int).0,
                        list_tail(cs@, pos as int).1,
                    ),
                decreases cs@.len() - pos,
            {
                let j = blanks(cs, pos);
                if j == pos {
                    assert(nats(out@) + Seq::<nat>::empty() =~= nats(out@));
                    return (out, pos);
                }
                match number(cs, j) {
                    None => {
                        assert(nats(out@) + Seq::<nat>::empty() =~= nats(out@));
                        return (out, pos);
                    },
                    Some((w, f)) => {
                        proof {
                            lemma_run_end_bounds(cs@, j as int, CharClass::Digit);
                        }
                        assert(list_tail(cs@, pos as int) == (seq![w as nat] + list_tail(cs@, f as int).0, list_tail(cs@, f as int).1));
                        let ghost before = nats(out@);
                        out.push(w);
                        assert(nats(out@) =~= before.push(w as nat));
                        assert(before + (seq![w as nat] + list_tail(cs@, f as int).0) =~= nats(out@)
                            + list_tail(cs@, f as int).0);
                        pos = f;
                    },
                }
            }
        },
    }
}

/// The sequence at `i`, if any.
fn sequence_chars(cs: &Vec<char>, i: usize) -> (r: Option<(Vec<usize>, usize)>)
    requires
        i <= cs@.len(),
    ensures
        match sequence_at(cs@, i as int) {
            Some((l, e)) => r matches Some((v, f)) && nats(v@) == l && f == e,
            None => r is None,
        },
        r matches Some((_, f)) ==> i < f <= cs@.len(),
{
    if i < cs.len() && cs[i] == '[' {
        let j = blanks(cs, i + 1);
        let (l, k) = list(cs, j);
        let m = blanks(cs, k);
        if m < cs.len() && cs[m] == ']' {
            Some((l, m + 1))
        } else {
            None
        }
    } else {
        None
    }
}

/// The remainder of `input` after its first `i` characters.
fn rest_of<'s>(input: &'s str, cs: &Vec<char>, i: usize) -> (r: &'s str)
    requires
        cs@ == input@,
        i <= cs@.len(),
    ensures
        r@ == input@.subrange(i as int, input@.len() as int),
{
    input.substring_char(i, cs.len())
}

/// The length of an optional leading `+`.
pub open spec fn sign_len(s: Seq<char>) -> int {
    if s.len() > 0 && s[0] == '+' {
        1
    } else {
        0
    }
}

/// Reads a decimal number that fits in `usize`, with an optional leading `+`.
pub fn size(input: &str) -> (r: Option<usize>)
    ensures
        match r {
            Some(v) => {
                let d = input@.subrange(sign_len(input@), input@.len() as int);
                d.len() > 0 && (forall|k: int| 0 <= k < d.len() ==> is_digit(#[trigger] d[k])) && v as nat
                    == decimal(d)
            },
            None => !(number_at(input@, sign_len(input@)) matches Some((_, e)) && e == input@.len()),
        },
{
    let cs = chars_of(input);
    let o: usize = if cs.len() > 0 && cs[0] == '+' { 1 } else { 0 };
    match number(&cs, o) {
        Some((v, e)) => {
            if e == cs.len() {
                proof {
                    lemma_run_end_bounds(cs@, o as int, CharClass::Digit);
                    let d = cs@.subrange(o as int, e as int);
                    assert forall|k: int| 0 <= k < d.len() implies is_digit(#[trigger] d[k]) by {
                        assert(d[k] == cs@[o + k]);
                    }
                }
                Some(v)
            } else {
                None
            }
        },
        None => None,
    }
}

/// Reads numbers separated by blanks; returns what follows them and the numbers.
pub fn number_list(input: &str) -> (r: (&str, Vec<usize>))
    ensures
        nats(r.1@) == list_at(input@, 0).0,
        r.0@ == input@.subrange(list_at(input@, 0).1, input@.len() as int),
{
    let cs = chars_of(input);
    let (l, e) = list(&cs, 0);
    (rest_of(input, &cs, e), l)
}

/// Reads a bracketed list of numbers; returns what follows it and the list.
pub fn sequence(input: &str) -> (r: Option<(&str, Sequence)>)
    ensures
        match sequence_at(input@, 0) {
            Some((l, e)) => r matches Some((rest, s)) && nats(s.0@) == l && rest@ == input@.subrange(
                e,
                input@.len() as int,
            ),
            None => r is None,
        },
{
    let cs = chars_of(input);
    match sequence_chars(&cs, 0) {
        Some((l, e)) => Some((rest_of(input, &cs, e), Sequence(l))),
        None => None,
    }
}

/// The test case at `i`, if any.
fn test_case_chars(cs: &Vec<char>, i: usize) -> (r: Option<(TestCase, usize)>)
    requires
        i <= cs@.len(),
    ensures
        match test_case_at(cs@, i as int) {
            Some((a, b, e)) => r matches Some((t, f)) && nats(t.input.0@) == a && nats(t.output.0@)
                == b && f == e,
            None => r is None,
        },
        r matches Some((_, f)) ==> i < f <= cs@.len(),
{
    match sequence_chars(cs, i) {
        Some((a, e)) => {
            let j = blanks(cs, e);
            if j < cs.len() && cs[j] == '-' && j + 1 < cs.len() && cs[j + 1] == '>' {
                let k = blanks(cs, j + 2);
                match sequence_chars(cs, k) {
                    Some((b, f)) => Some((TestCase { input: Sequence(a), output: Sequence(b) }, f)),
                    None => None,
                }
            } else {
                None
            }
        },
        None => None,
    }
}

/// Reads a test case, `[ ... ] -> [ ... ]`; returns what follows it and the case.
pub fn test_case(input: &str) -> (r: Option<(&str, TestCase)>)
    ensures
        match test_case_at(input@, 0) {
            Some((a, b, e)) => r matches Some((rest, t)) && nats(t.input.0@) == a && nats(
                t.output.0@,
            ) == b && rest@ == input@.subrange(e, input@.len() as int),
            None => r is None,
        },
{
    let cs = chars_of(input);
    match test_case_chars(&cs, 0) {
        Some((t, f)) => Some((rest_of(input, &cs, f), t)),
        None => None,
    }
}

/// The section label at `i`, if any.
fn label_chars(input: &str, cs: &Vec<char>, i: usize) -> (r: Option<(Label, usize)>)
    requires
        cs@ == input@,
        i <= cs@.len(),
    ensures
        match label_at(cs@, i as int) {
            Some((name, e)) => r matches Some((l, f)) && l.0@ == name && f == e,
            None => r is None,
        },
        r matches Some((_, f)) ==> f <= cs@.len(),
{
    let n = cs.len();
    let mut a: usize = i;
    while a < n && (cs[a] == ' ' || cs[a] == '\t' || cs[a] == '\r' || cs[a] == '\n')
        invariant
            n == cs@.len(),
            i <= a <= n,
            run_end(cs@, a as int, CharClass::Multispace) == run_end(cs@, i as int, CharClass::Multispace),
        decreases n - a,
    {
        a = a + 1;
    }
    let mut b = a;
    while b < n && (('a' <= cs[b] && cs[b] <= 'z') || ('A' <= cs[b] && cs[b] <= 'Z'))
        invariant
            n == cs@.len(),
            a <= b <= n,
            run_end(cs@, b as int, CharClass::Letter) == run_end(cs@, a as int, CharClass::Letter),
        decreases n - b,
    {
        b = b + 1;
    }
    if a < b && b < n && cs[b] == ':' {
        let name = input.substring_char(a, b).to_owned();
        if b + 1 < n && cs[b + 1] == '\n' {
            Some((Label(name), b + 2))
        } else if b + 1 < n && cs[b + 1] == '\r' && b + 2 < n && cs[b + 2] == '\n' {
            Some((Label(name), b + 3))
        } else {
            None
        }
    } else {
        None
    }
}

/// Reads a section label, `name:` and a line ending, after any whitespace;
/// returns what follows it and the name.
pub fn label(input: &str) -> (r: Option<(&str, Label)>)
    ensures
        match label_at(input@, 0) {
            Some((name, e)) => r matches Some((rest, l)) && l.0@ == name && rest@ == input@.subrange(
                e,
                input@.len() as int,
            ),
            None => r is None,
        },
{
    let cs = chars_of(input);
    match label_chars(input, &cs, 0) {
        Some((l, f)) => Some((rest_of(input, &cs, f), l)),
        None => None,
    }
}

/// A line ending at `i`, `\n` or `\r\n`; where it ends.
pub open spec fn line_ending_at(s: Seq<char>, i: int) -> Option<int> {
    if 0 <= i < s.len() && s[i] == '\n' {
        Some(i + 1)
    } else if 0 <= i && i + 1 < s.len() && s[i] == '\r' && s[i + 1] == '\n' {
        Some(i + 2)
    } else {
        None
    }
}

/// `key = number`: letters, blanks, `=`, blanks, a number.
pub open spec fn kvp_at(s: Seq<char>, i: int) -> Option<(Seq<char>, nat, int)> {
    let b = run_end(s, i, CharClass::Letter);
    let c = run_end(s, b, CharClass::Blank);
    if 0 <= i < b && c < s.len() && s[c] == '=' {
        let d = run_end(s, c + 1, CharClass::Blank);
        match number_at(s, d) {
            Some((v, e)) => Some((s.subrange(i, b), v, e)),
            None => None,
        }
    } else {
        None
    }
}

/// The mathematical form of a statement of a level file.
pub enum Stmt {
    KeyValue(Seq<char>, nat),
    Case(Seq<nat>, Seq<nat>),
}

/// A statement: whitespace, then a key-value pair or a test case, then a line ending.
pub open spec fn statement_at(s: Seq<char>, i: int) -> Option<(Stmt, int)> {
    let a = run_end(s, i, CharClass::Multispace);
    let body = match kvp_at(s, a) {
        Some((k, v, e)) => Some((Stmt::KeyValue(k, v), e)),
        None => match test_case_at(s, a) {
            Some((x, y, e)) => Some((Stmt::Case(x, y), e)),
            None => None,
        },
    };
    match body {
        Some((st, e)) => match line_ending_at(s, e) {
            Some(f) => Some((st, f)),
            None => None,
        },
        None => None,
    }
}

/// As many statements as follow one another from `i`; and where they end.
pub open spec fn statements_from(s: Seq<char>, i: int) -> (Seq<Stmt>, int)
    decreases s.len() + 1 - i,
{
    match statement_at(s, i) {
        Some((st, e)) => if 0 <= i < e <= s.len() {
            (seq![st] + statements_from(s, e).0, statements_from(s, e).1)
        } else {
            (Seq::empty(), i)
        },
        None => (Seq::empty(), i),
    }
}

/// A section: a label, then its statements.
pub open spec fn section_at(s: Seq<char>, i: int) -> Option<(Seq<char>, Seq<Stmt>, int)> {
    match label_at(s, i) {
        Some((name, e)) => Some((name, statements_from(s, e).0, statements_from(s, e).1)),
        None => None,
    }
}

/// As many sections as follow one another from `i`; and where they end.
pub open spec fn sections_from(s: Seq<char>, i: int) -> (Seq<(Seq<char>, Seq<Stmt>)>, int)
    decreases s.len() + 1 - i,
{
    match section_at(s, i) {
        Some((name, sts, e)) => if 0 <= i < e <= s.len() {
            (seq![(name, sts)] + sections_from(s, e).0, sections_from(s, e).1)
        } else {
            (Seq::empty(), i)
        },
        None => (Seq::empty(), i),
    }
}

/// The first section, in order, whose name an earlier section already has.
pub open spec fn repeated_section(secs: Seq<(Seq<char>, Seq<Stmt>)>, seen: Set<Seq<char>>) -> Option<Seq<char>>
    decreases secs.len(),
{
    if secs.len() == 0 {
        None
    } else if seen.contains(secs[0].0) {
        Some(secs[0].0)
    } else {
        repeated_section(secs.drop_first(), seen.insert(secs[0].0))
    }
}

/// The statements of the section named `name`, or none.
pub open spec fn section_stmts(secs: Seq<(Seq<char>, Seq<Stmt>)>, name: Seq<char>) -> Seq<Stmt>
    decreases secs.len(),
{
    if secs.len() == 0 {
        Seq::empty()
    } else if secs[0].0 == name {
        secs[0].1
    } else {
        section_stmts(secs.drop_first(), name)
    }
}

/// The value of the first pair with key `key`.
pub open spec fn stmt_value(sts: Seq<Stmt>, key: Seq<char>) -> Option<nat>
    decreases sts.len(),
{
    if sts.len() == 0 {
        None
    } else {
        match sts[0] {
            Stmt::KeyValue(k, v) => if k == key {
                Some(v)
            } else {
                stmt_value(sts.drop_first(), key)
            },
            _ => stmt_value(sts.drop_first(), key),
        }
    }
}

/// The test cases among `sts`, in order.
pub open spec fn stmt_cases(sts: Seq<Stmt>) -> Seq<(Seq<nat>, Seq<nat>)>
    decreases sts.len(),
{
    if sts.len() == 0 {
        Seq::empty()
    } else {
        match sts[0] {
            Stmt::Case(x, y) => seq![(x, y)] + stmt_cases(sts.drop_first()),
            _ => stmt_cases(sts.drop_first()),
        }
    }
}

/// The mathematical form of a level: goal size, goal speed and test cases.
pub struct LevelModel {
    pub size: nat,
    pub speed: nat,
    pub tests: Seq<(Seq<nat>, Seq<nat>)>,
}

/// The failure that a level file meets before its goals are read: a section
/// name given twice, or text after the last section that is not whitespace.
pub open spec fn level_shape(s: Seq<char>) -> Option<LoadFault> {
    let (secs, e) = sections_from(s, 0);
    let f = run_end(s, e, CharClass::Multispace);
    if repeated_section(secs, Set::empty()) is Some {
        Some(LoadFault::UnexpectedToken("x"@))
    } else if f < s.len() {
        Some(LoadFault::UnexpectedToken(s.subrange(f, s.len() as int)))
    } else {
        None
    }
}

/// The section `goals` gives both `size` and `speed`.
pub open spec fn goals_present(s: Seq<char>) -> bool {
    let goals = section_stmts(sections_from(s, 0).0, "goals"@);
    stmt_value(goals, "size"@) is Some && stmt_value(goals, "speed"@) is Some
}

/// What reading a whole level file gives. Sections follow one another, names
/// unique, with only whitespace after the last; the goals are the keys `size`
/// and `speed` of the section `goals`; the test cases are those of the
/// section `tests`.
pub open spec fn level_spec(s: Seq<char>) -> Result<LevelModel, LoadFault> {
    let secs = sections_from(s, 0).0;
    let goals = section_stmts(secs, "goals"@);
    match level_shape(s) {
        Some(f) => Err(f),
        None => Ok(
            LevelModel {
                size: stmt_value(goals, "size"@)->Some_0,
                speed: stmt_value(goals, "speed"@)->Some_0,
                tests: stmt_cases(section_stmts(secs, "tests"@)),
            },
        ),
    }
}

/// A `key = number` pair of a level file.
#[derive(Debug)]
pub struct KeyValue(pub String, pub usize);

/// A statement of a level file.
#[derive(Debug)]
pub enum Statement {
    TestCase(TestCase),
    KeyValue(KeyValue),
}

impl View for Statement {
    type V = Stmt;

    open spec fn view(&self) -> Stmt {
        match self {
            Statement::TestCase(t) => Stmt::Case(nats(t.input.0@), nats(t.output.0@)),
            Statement::KeyValue(kv) => Stmt::KeyValue(kv.0@, kv.1 as nat),
        }
    }
}

/// A section of a level file: its label and its statements.
#[derive(Debug)]
pub struct Section {
    pub label: Label,
    pub statements: Vec<Statement>,
}

pub open spec fn stmts_view(v: Seq<Statement>) -> Seq<Stmt> {
    v.map_values(|x: Statement| x@)
}

pub open spec fn sections_view(v: Seq<Section>) -> Seq<(Seq<char>, Seq<Stmt>)> {
    v.map_values(|x: Section| (x.label.0@, stmts_view(x.statements@)))
}

/// The line ending at `i`, if any.
fn line_ending(cs: &Vec<char>, i: usize) -> (r: Option<usize>)
    requires
        i <= cs@.len(),
    ensures
        match line_ending_at(cs@, i as int) {
            Some(e) => r == Some(e as usize) && e <= cs@.len(),
            None => r is None,
        },
{
    if i < cs.len() && cs[i] == '\n' {
        Some(i + 1)
    } else if i < cs.len() && cs[i] == '\r' && i + 1 < cs.len() && cs[i + 1] == '\n' {
        Some(i + 2)
    } else {
        None
    }
}

/// The pair at `i`, if any.
fn kvp_chars(input: &str, cs: &Vec<char>, i: usize) -> (r: Option<(KeyValue, usize)>)
    requires
        cs@ == input@,
        i <= cs@.len(),
    ensures
        match kvp_at(cs@, i as int) {
            Some((k, v, e)) => r matches Some((kv, f)) && kv.0@ == k && kv.1 as nat == v && f == e,
            None => r is None,
        },
        r matches Some((_, f)) ==> i < f <= cs@.len(),
{
    let n = cs.len();
    let mut b = i;
    while b < n && (('a' <= cs[b] && cs[b] <= 'z') || ('A' <= cs[b] && cs[b] <= 'Z'))
        invariant
            n == cs@.len(),
            i <= b <= n,
            run_end(cs@, b as int, CharClass::Letter) == run_end(cs@, i as int, CharClass::Letter),
        decreases n - b,
    {
        b = b + 1;
    }
    let c = blanks(cs, b);
    if i < b && c < n && cs[c] == '=' {
        let d = blanks(cs, c + 1);
        match number(cs, d) {
            Some((v, e)) => Some((KeyValue(input.substring_char(i, b).to_owned(), v), e)),
            None => None,
        }
    } else {
        None
    }
}

/// Reads a `key = number` pair; returns what follows it and the pair.
pub fn kvp(input: &str) -> (r: Option<(&str, KeyValue)>)
    ensures
        match kvp_at(input@, 0) {
            Some((k, v, e)) => r matches Some((rest, kv)) && kv.0@ == k && kv.1 as nat == v
                && rest@ == input@.subrange(e, input@.len() as int),
            None => r is None,
        },
{
    let cs = chars_of(input);
    match kvp_chars(input, &cs, 0) {
        Some((kv, e)) => Some((rest_of(input, &cs, e), kv)),
        None => None,
    }
}

/// The statement at `i`, if any.
fn statement_chars(input: &str, cs: &Vec<char>, i: usize) -> (r: Option<(Statement, usize)>)
    requires
        cs@ == input@,
        i <= cs@.len(),
    ensures
        match statement_at(cs@, i as int) {
            Some((st, e)) => r matches Some((x, f)) && x@ == st && f == e,
            None => r is None,
        },
        r matches Some((_, f)) ==> i < f <= cs@.len(),
{
    let n = cs.len();
    let mut a: usize = i;
    while a < n && (cs[a] == ' ' || cs[a] == '\t' || cs[a] == '\r' || cs[a] == '\n')
        invariant
            n == cs@.len(),
            i <= a <= n,
            run_end(cs@, a as int, CharClass::Multispace) == run_end(cs@, i as int, CharClass::Multispace),
        decreases n - a,
    {
        a = a + 1;
    }
    let body = match kvp_chars(input, cs, a) {
        Some((kv, e)) => Some((Statement::KeyValue(kv), e)),
        None => match test_case_chars(cs, a) {
            Some((t, e)) => Some((Statement::TestCase(t), e)),
            None => None,
        },
    };
    match body {
        Some((st, e)) => match line_ending(cs, e) {
            Some(f) => Some((st, f)),
            None => None,
        },
        None => None,
    }
}

/// The statements from `i` on.
fn statements(input: &str, cs: &Vec<char>, i: usize) -> (r: (Vec<Statement>, usize))
    requires
        cs@ == input@,
        i <= cs@.len(),
    ensures
        (stmts_view(r.0@), r.1 as int) == statements_from(cs@, i as int),
        i <= r.1 <= cs@.len(),
{
    let mut out: Vec<Statement> = Vec::new();
    let mut pos = i;
    assert(stmts_view(out@) =~= Seq::<Stmt>::empty());
    loop
        invariant
            cs@ == input@,
            i <= pos <= cs@.len(),
            statements_from(cs@, i as int) == (
                stmts_view(out@) + statements_from(cs@, pos as int).0,
                statements_from(cs@, pos as int).1,
            ),
        decreases cs@.len() - pos,
    {
        match statement_chars(input, cs, pos) {
            Some((st, e)) => {
                let ghost before = stmts_view(out@);
                let ghost sv = st@;
                out.push(st);
                assert(stmts_view(out@) =~= before.push(sv));
                assert(before + (seq![sv] + statements_from(cs@, e as int).0) =~= stmts_view(out@)
                    + statements_from(cs@, e as int).0);
                pos = e;
            },
            None => {
                assert(stmts_view(out@) + Seq::<Stmt>::empty() =~= stmts_view(out@));
                return (out, pos);
            },
        }
    }
}

/// The sections from the start of `input`.
fn sections(input: &str, cs: &Vec<char>) -> (r: (Vec<Section>, usize))
    requires
        cs@ == input@,
    ensures
        (sections_view(r.0@), r.1 as int) == sections_from(cs@, 0),
        r.1 <= cs@.len(),
{
    let mut out: Vec<Section> = Vec::new();
    let mut pos: usize = 0;
    assert(sections_view(out@) =~= Seq::<(Seq<char>, Seq<Stmt>)>::empty());
    loop
        invariant
            cs@ == input@,
            pos <= cs@.len(),
            sections_from(cs@, 0) == (
                sections_view(out@) + sections_from(cs@, pos as int).0,
                sections_from(cs@, pos as int).1,
            ),
        decreases cs@.len() - pos,
    {
        match label_chars(input, cs, pos) {
            Some((l, e)) => {
                let (sts, f) = statements(input, cs, e);
                if f <= pos {
                    assert(sections_view(out@) + Seq::<(Seq<char>, Seq<Stmt>)>::empty() =~= sections_view(out@));
                    return (out, pos);
                }
                let sec = Section { label: l, statements: sts };
                let ghost before = sections_view(out@);
                let ghost sv = (sec.label.0@, stmts_view(sec.statements@));
                out.push(sec);
                assert(sections_view(out@) =~= before.push(sv));
                assert(before + (seq![sv] + sections_from(cs@, f as int).0) =~= sections_view(out@)
                    + sections_from(cs@, f as int).0);
                pos = f;
            },
            None => {
                assert(sections_view(out@) + Seq::<(Seq<char>, Seq<Stmt>)>::empty() =~= sections_view(out@));
                return (out, pos);
            },
        }
    }
}

/// The mathematical form of a list of tests.
pub open spec fn tests_view(v: Seq<Test>) -> Seq<(Seq<nat>, Seq<nat>)> {
    v.map_values(|t: Test| (nats(t.input@), nats(t.output@)))
}

/// The mathematical form of a level.
pub open spec fn level_view(l: Level) -> LevelModel {
    LevelModel { size: l.goals.size as nat, speed: l.goals.speed as nat, tests: tests_view(l.tests@) }
}

/// The names of the first `i` sections.
pub open spec fn names_before(secs: Seq<(Seq<char>, Seq<Stmt>)>, i: int) -> Set<Seq<char>> {
    Set::new(|n: Seq<char>| exists|j: int| 0 <= j < i && #[trigger] secs[j].0 == n)
}

fn copy_numbers(v: &Vec<usize>) -> (r: Vec<usize>)
    ensures
        r@ == v@,
{
    let mut r: Vec<usize> = Vec::new();
    let mut i: usize = 0;
    while i < v.len()
        invariant
            i <= v@.len(),
            r@ == v@.subrange(0, i as int),
        decreases v@.len() - i,
    {
        r.push(v[i]);
        i = i + 1;
        assert(r@ =~= v@.subrange(0, i as int));
    }
    assert(r@ =~= v@);
    r
}

/// The position of the first section whose name an earlier one already has.
fn first_repeat(secs: &Vec<Section>) -> (r: Option<usize>)
    ensures
        match repeated_section(sections_view(secs@), Set::empty()) {
            Some(name) => r matches Some(k) && k < secs@.len() && sections_view(secs@)[k as int].0
                == name,
            None => r is None,
        },
{
    let ghost view = sections_view(secs@);
    assert(names_before(view, 0) =~= Set::<Seq<char>>::empty());
    assert(view.subrange(0, view.len() as int) =~= view);
    let mut i: usize = 0;
    while i < secs.len()
        invariant
            view == sections_view(secs@),
            i <= secs@.len(),
            repeated_section(view, Set::empty()) == repeated_section(
                view.subrange(i as int, view.len() as int),
                names_before(view, i as int),
            ),
        decreases secs@.len() - i,
    {
        let ghost rest = view.subrange(i as int, view.len() as int);
        assert(rest[0] == view[i as int]);
        assert(rest.drop_first() =~= view.subrange(i + 1, view.len() as int));
        let mut j: usize = 0;
        while j < i
            invariant
                view == sections_view(secs@),
                view.len() == secs@.len(),
                rest == view.subrange(i as int, view.len() as int),
                rest[0] == view[i as int],
                repeated_section(view, Set::empty()) == repeated_section(rest, names_before(view, i as int)),
                j <= i < secs@.len(),
                forall|k: int| 0 <= k < j ==> #[trigger] view[k].0 != view[i as int].0,
            decreases i - j,
        {
            if secs[j].label.0 == secs[i].label.0 {
                assert(names_before(view, i as int).contains(view[i as int].0)) by {
                    assert(view[j as int].0 == view[i as int].0);
                }
                assert(rest.len() > 0);
                assert(repeated_section(rest, names_before(view, i as int)) == Some(view[i as int].0));
                return Some(i);
            }
            j = j + 1;
        }
        assert(!names_before(view, i as int).contains(view[i as int].0));
        assert(names_before(view, i + 1) =~= names_before(view, i as int).insert(view[i as int].0)) by {
            assert forall|n: Seq<char>| #[trigger] names_before(view, i + 1).contains(n) implies names_before(
                view,
                i as int,
            ).insert(view[i as int].0).contains(n) by {
                let w = choose|w: int| 0 <= w < i + 1 && #[trigger] view[w].0 == n;
                if w < i {
                    assert(names_before(view, i as int).contains(n));
                }
            }
            assert forall|n: Seq<char>| #[trigger] names_before(view, i as int).insert(view[i as int].0).contains(n)
                implies names_before(view, i + 1).contains(n) by {
                if n == view[i as int].0 {
                    assert(view[i as int].0 == n);
                } else {
                    let w = choose|w: int| 0 <= w < i && #[trigger] view[w].0 == n;
                    assert(view[w].0 == n);
                }
            }
        }
        i = i + 1;
    }
    None
}

/// The sections of a level file, names unique.
pub struct ParseLevel(pub Vec<Section>);

impl ParseLevel {
    /// The statements of the section named `section`.
    pub open spec fn stmts_of(&self, section: Seq<char>) -> Seq<Stmt> {
        section_stmts(sections_view(self.0@), section)
    }

    fn find_section(&self, section: &str) -> (r: Option<usize>)
        ensures
            match r {
                Some(k) => k < self.0@.len() && self.stmts_of(section@) == stmts_view(
                    self.0@[k as int].statements@,
                ),
                None => self.stmts_of(section@) == Seq::<Stmt>::empty(),
            },
    {
        let ghost view = sections_view(self.0@);
        let name = section.to_owned();
        let mut i: usize = 0;
        assert(view.subrange(0, view.len() as int) =~= view);
        while i < self.0.len()
            invariant
                view == sections_view(self.0@),
                name@ == section@,
                i <= self.0@.len(),
                section_stmts(view, section@) == section_stmts(
                    view.subrange(i as int, view.len() as int),
                    section@,
                ),
            decreases self.0@.len() - i,
        {
            let ghost rest = view.subrange(i as int, view.len() as int);
            assert(rest[0] == view[i as int]);
            assert(rest.drop_first() =~= view.subrange(i + 1, view.len() as int));
            if self.0[i].label.0 == name {
                return Some(i);
            }
            i = i + 1;
        }
        None
    }

    /// The value of the key `key` in the section `section`, if both exist.
    pub fn get_value(&self, section: &str, key: &str) -> (r: Option<usize>)
        ensures
            match stmt_value(self.stmts_of(section@), key@) {
                Some(v) => r matches Some(x) && x as nat == v,
                None => r is None,
            },
    {
        let k = match self.find_section(section) {
            Some(k) => k,
            None => return None,
        };
        let sts = &self.0[k].statements;
        let ghost view = stmts_view(sts@);
        let name = key.to_owned();
        let mut i: usize = 0;
        assert(view.subrange(0, view.len() as int) =~= view);
        while i < sts.len()
            invariant
                view == stmts_view(sts@),
                self.stmts_of(section@) == view,
                name@ == key@,
                i <= sts@.len(),
                stmt_value(view, key@) == stmt_value(view.subrange(i as int, view.len() as int), key@),
            decreases sts@.len() - i,
        {
            let ghost rest = view.subrange(i as int, view.len() as int);
            assert(rest[0] == view[i as int]);
            assert(rest.drop_first() =~= view.subrange(i + 1, view.len() as int));
            if let Statement::KeyValue(kv) = &sts[i] {
                if kv.0 == name {
                    return Some(kv.1);
                }
            }
            i = i + 1;
        }
        None
    }

    /// The test cases of the section `section`, in order.
    pub fn tests(&self, section: &str) -> (r: Vec<Test>)
        ensures
            tests_view(r@) == stmt_cases(self.stmts_of(section@)),
    {
        let mut out: Vec<Test> = Vec::new();
        let k = match self.find_section(section) {
            Some(k) => k,
            None => {
                assert(tests_view(out@) =~= Seq::<(Seq<nat>, Seq<nat>)>::empty());
                return out;
            },
        };
        let sts = &self.0[k].statements;
        let ghost view = stmts_view(sts@);
        let mut i: usize = 0;
        assert(view.subrange(0, view.len() as int) =~= view);
        assert(tests_view(out@) + stmt_cases(view) =~= stmt_cases(view));
        while i < sts.len()
            invariant
                view == stmts_view(sts@),
                self.stmts_of(section@) == view,
                i <= sts@.len(),
                stmt_cases(view) == tests_view(out@) + stmt_cases(
                    view.subrange(i as int, view.len() as int),
                ),
            decreases sts@.len() - i,
        {
            let ghost rest = view.subrange(i as int, view.len() as int);
            assert(rest[0] == view[i as int]);
            assert(rest.drop_first() =~= view.subrange(i + 1, view.len() as int));
            if let Statement::TestCase(tc) = &sts[i] {
                let t = Test { input: copy_numbers(&tc.input.0), output: copy_numbers(&tc.output.0) };
                let ghost before = tests_view(out@);
                let ghost tv = (nats(t.input@), nats(t.output@));
                out.push(t);
                assert(tests_view(out@) =~= before.push(tv));
                assert(before + (seq![tv] + stmt_cases(view.subrange(i + 1, view.len() as int)))
                    =~= tests_view(out@) + stmt_cases(view.subrange(i + 1, view.len() as int)));
            }
            i = i + 1;
        }
        assert(tests_view(out@) + Seq::<(Seq<nat>, Seq<nat>)>::empty() =~= tests_view(out@));
        out
    }
}

/// The sections of `s`, and the failure it meets before its goals are read.
fn read_sections(s: &str) -> (r: (ParseLevel, Option<ParseError>))
    ensures
        sections_view(r.0.0@) == sections_from(s@, 0).0,
        match level_shape(s@) {
            Some(f) => r.1 matches Some(e) && e@ == f,
            None => r.1 is None,
        },
{
    let cs = chars_of(s);
    let n = cs.len();
    let (secs, e) = sections(s, &cs);
    let mut f = e;
    while f < n && (cs[f] == ' ' || cs[f] == '\t' || cs[f] == '\r' || cs[f] == '\n')
        invariant
            n == cs@.len(),
            e <= f <= n,
            run_end(cs@, f as int, CharClass::Multispace) == run_end(cs@, e as int, CharClass::Multispace),
        decreases n - f,
    {
        f = f + 1;
    }
    let fault = if first_repeat(&secs).is_some() {
        Some(ParseError::UnexpectedToken("x".to_owned()))
    } else if f < n {
        Some(ParseError::UnexpectedToken(s.substring_char(f, n).to_owned()))
    } else {
        None
    };
    (ParseLevel(secs), fault)
}

impl Level {
    /// Whether `parse` takes `s`: either `s` fails before its goals are read,
    /// or its section `goals` gives both `size` and `speed`.
    pub fn parse_admits(s: &str) -> (r: bool)
        ensures
            r == (level_shape(s@) is Some || goals_present(s@)),
    {
        let (lvl, fault) = read_sections(s);
        if fault.is_some() {
            return true;
        }
        lvl.get_value("goals", "size").is_some() && lvl.get_value("goals", "speed").is_some()
    }

    /// Reads a level file.
    pub fn parse(s: &str) -> (r: Result<Level, ParseError>)
        requires
            level_shape(s@) is Some || goals_present(s@),
        ensures
            match level_spec(s@) {
                Ok(m) => r matches Ok(l) && level_view(l) == m,
                Err(f) => r matches Err(e) && e@ == f,
            },
    {
        let (lvl, fault) = read_sections(s);
        if let Some(e) = fault {
            return Err(e);
        }
        let size = match lvl.get_value("goals", "size") {
            Some(v) => v,
            None => {
                proof {
                    assert(false);
                }
                0
            },
        };
        let speed = match lvl.get_value("goals", "speed") {
            Some(v) => v,
            None => {
                proof {
                    assert(false);
                }
                0
            },
        };
        let tests = lvl.tests("tests");
        Ok(Level { goals: Goals { size, speed }, tests })
    }
}

} // verus!
