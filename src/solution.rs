use vstd::prelude::*;

use crate::error::{LoadFault, ParseError};
use crate::program::{parse_instr, Instr, Op};
use crate::text::{
    chars_of, find_newline, is_letter, line_end, line_text, lines, lines_from, next_newline, trim,
    trim_range,
};

verus! {

/// The line that every program text starts with.
pub const HEADER_STR: &'static str = "-- HUMAN RESOURCE MACHINE PROGRAM --";

/// A loaded program: its instructions, in address order, and its labels.
#[derive(Debug)]
pub struct Solution {
    pub(crate) labels: Vec<(String, usize)>,
    pub(crate) ops: Vec<Op>,
}

/// The label table that a list of (name, address) entries stands for.
pub open spec fn label_map(entries: Seq<(String, usize)>) -> Map<Seq<char>, nat>
    decreases entries.len(),
{
    if entries.len() == 0 {
        Map::empty()
    } else {
        label_map(entries.drop_last()).insert(entries.last().0@, entries.last().1 as nat)
    }
}

/// No two entries share a name.
pub open spec fn names_unique(entries: Seq<(String, usize)>) -> bool {
    forall|i: int, j: int|
        0 <= i < j < entries.len() ==> #[trigger] entries[i].0@ != #[trigger] entries[j].0@
}

/// An entry's name is bound to its address.
pub proof fn lemma_label_map_entry(entries: Seq<(String, usize)>, i: int)
    requires
        names_unique(entries),
        0 <= i < entries.len(),
    ensures
        label_map(entries).contains_key(entries[i].0@),
        label_map(entries)[entries[i].0@] == entries[i].1 as nat,
    decreases entries.len(),
{
    if i < entries.len() - 1 {
        assert(entries[i].0@ != entries[entries.len() - 1].0@);
        lemma_label_map_entry(entries.drop_last(), i);
    }
}

/// A name that no entry carries is not bound.
pub proof fn lemma_label_map_absent(entries: Seq<(String, usize)>, name: Seq<char>)
    requires
        forall|i: int| 0 <= i < entries.len() ==> #[trigger] entries[i].0@ != name,
    ensures
        !label_map(entries).contains_key(name),
    decreases entries.len(),
{
    if entries.len() > 0 {
        assert(entries.last().0@ != name);
        lemma_label_map_absent(entries.drop_last(), name);
    }
}

/// What loading has built so far: the instructions and the label table.
pub struct LoadState {
    pub ops: Seq<Instr>,
    pub labels: Map<Seq<char>, nat>,
}

/// Nothing loaded yet.
pub open spec fn empty_load() -> LoadState {
    LoadState { ops: Seq::empty(), labels: Map::empty() }
}

/// A trimmed line that declares a label: one or more ASCII letters, then `:`.
pub open spec fn is_label_decl(t: Seq<char>) -> bool {
    &&& t.len() >= 2
    &&& t.last() == ':'
    &&& forall|i: int| 0 <= i < t.len() - 1 ==> is_letter(#[trigger] t[i])
}

/// Takes one body line into the load: a blank line changes nothing, a label
/// declaration binds the label to the next instruction's address, any other
/// line is parsed as an instruction and appended.
pub open spec fn absorb(st: LoadState, line: Seq<char>) -> Result<LoadState, LoadFault> {
    let t = trim(line);
    if t.len() == 0 {
        Ok(st)
    } else if is_label_decl(t) {
        let name = t.drop_last();
        if st.labels.contains_key(name) {
            Err(LoadFault::DuplicateLabel(name))
        } else {
            Ok(LoadState { labels: st.labels.insert(name, st.ops.len()), ..st })
        }
    } else {
        match parse_instr(t) {
            Ok(i) => Ok(LoadState { ops: st.ops.push(i), ..st }),
            Err(f) => Err(f),
        }
    }
}

/// Takes the body lines `ls` into the load `st`, in order, up to the first failure.
pub open spec fn load_body(st: LoadState, ls: Seq<Seq<char>>) -> Result<LoadState, LoadFault>
    decreases ls.len(),
{
    if ls.len() == 0 {
        Ok(st)
    } else {
        match absorb(st, ls[0]) {
            Err(f) => Err(f),
            Ok(n) => load_body(n, ls.drop_first()),
        }
    }
}

/// Loads lines: empty lines before the header are passed over, the first
/// other line must be the header, and the lines after it are the body.
pub open spec fn load_from(ls: Seq<Seq<char>>) -> Result<LoadState, LoadFault>
    decreases ls.len(),
{
    if ls.len() == 0 {
        Err(LoadFault::MissingHeader)
    } else if ls[0].len() == 0 {
        load_from(ls.drop_first())
    } else if ls[0] == HEADER_STR@ {
        load_body(empty_load(), ls.drop_first())
    } else {
        Err(LoadFault::InvalidHeader)
    }
}

/// What loading the program text `text` gives.
pub open spec fn load(text: Seq<char>) -> Result<LoadState, LoadFault> {
    load_from(lines(text))
}

/// The address bound to `name` in `entries`, if any.
pub fn find_label(entries: &Vec<(String, usize)>, name: &String) -> (r: Option<usize>)
    requires
        names_unique(entries@),
    ensures
        match r {
            Some(a) => label_map(entries@).contains_key(name@) && label_map(entries@)[name@]
                == a as nat,
            None => !label_map(entries@).contains_key(name@) && forall|i: int|
                0 <= i < entries@.len() ==> #[trigger] entries@[i].0@ != name@,
        },
{
    let mut i: usize = 0;
    while i < entries.len()
        invariant
            i <= entries@.len(),
            names_unique(entries@),
            forall|j: int| 0 <= j < i ==> #[trigger] entries@[j].0@ != name@,
        decreases entries@.len() - i,
    {
        if entries[i].0 == *name {
            proof {
                lemma_label_map_entry(entries@, i as int);
            }
            return Some(entries[i].1);
        }
        i = i + 1;
    }
    proof {
        lemma_label_map_absent(entries@, name@);
    }
    None
}

/// Whether the characters `cs` declare a label.
fn label_decl(cs: &Vec<char>) -> (r: bool)
    ensures
        r == is_label_decl(cs@),
{
    let n = cs.len();
    if n < 2 || cs[n - 1] != ':' {
        return false;
    }
    let mut i: usize = 0;
    while i < n - 1
        invariant
            n == cs@.len(),
            n >= 2,
            i <= n - 1,
            forall|j: int| 0 <= j < i ==> is_letter(#[trigger] cs@[j]),
        decreases n - 1 - i,
    {
        let c = cs[i];
        if !(('a' <= c && c <= 'z') || ('A' <= c && c <= 'Z')) {
            return false;
        }
        i = i + 1;
    }
    true
}

/// A label declared after `k` instructions have been loaded is bound to
/// address `k`, and the instructions stay as they are.
pub proof fn law_label_binds_next_address(st: LoadState, line: Seq<char>)
    requires
        is_label_decl(trim(line)),
        !st.labels.contains_key(trim(line).drop_last()),
    ensures
        absorb(st, line) is Ok,
        absorb(st, line)->Ok_0.ops == st.ops,
        absorb(st, line)->Ok_0.labels.contains_key(trim(line).drop_last()),
        absorb(st, line)->Ok_0.labels[trim(line).drop_last()] == st.ops.len(),
{
}

proof fn lemma_lines_step(cs: Seq<char>, pos: int)
    requires
        0 <= pos < cs.len(),
    ensures
        lines_from(cs, pos).len() > 0,
        lines_from(cs, pos)[0] == line_text(cs, pos, next_newline(cs, pos)),
        lines_from(cs, pos).drop_first() == lines_from(cs, next_newline(cs, pos) + 1),
{
    let e = next_newline(cs, pos);
    assert(lines_from(cs, pos) == seq![line_text(cs, pos, e)] + lines_from(cs, e + 1));
    assert(lines_from(cs, pos).drop_first() =~= lines_from(cs, e + 1));
}

impl Solution {

    /// Passes over the lines up to and including the header; returns where the body starts.
    fn skip_header(cs: &Vec<char>) -> (r: Result<usize, ParseError>)
        ensures
            match r {
                Ok(p) => p <= cs@.len() && load(cs@) == load_body(empty_load(), lines_from(cs@, p as int)),
                Err(e) => load(cs@) == Err::<LoadState, LoadFault>(e@),
            },
    {
        let n = cs.len();
        let mut pos: usize = 0;
        while pos < n
            invariant
                n == cs@.len(),
                pos <= n,
                load(cs@) == load_from(lines_from(cs@, pos as int)),
            decreases n - pos,
        {
            let e = find_newline(cs, pos);
            let hi = line_end(cs, pos, e);
            proof {
                lemma_lines_step(cs@, pos as int);
            }
            let next = if e < n { e + 1 } else { n };
            assert(lines_from(cs@, next as int) == lines_from(cs@, e + 1));
            if hi > pos {
                if crate::text::spells(cs, pos, hi, HEADER_STR) {
                    return Ok(next);
                } else {
                    return Err(ParseError::InvalidHeader);
                }
            }
            pos = next;
        }
        Err(ParseError::MissingHeader)
    }

    /// Loads program text: a header line, then label declarations and
    /// instructions, one to a line.
    pub fn parse(text: &str) -> (r: Result<Solution, ParseError>)
        ensures
            match r {
                Ok(sol) => load(text@) == Ok::<LoadState, LoadFault>(
                    LoadState { ops: sol.instrs(), labels: sol.label_table() },
                ),
                Err(e) => load(text@) == Err::<LoadState, LoadFault>(e@),
            },
    {
        let cs = chars_of(text);
        let n = cs.len();
        let mut pos = match Solution::skip_header(&cs) {
            Ok(p) => p,
            Err(e) => return Err(e),
        };
        let mut ops: Vec<Op> = Vec::new();
        let mut labels: Vec<(String, usize)> = Vec::new();
        assert(ops@.map_values(|o: Op| o@) =~= Seq::<Instr>::empty());
        while pos < n
            invariant
                n == cs@.len(),
                cs@ == text@,
                pos <= n,
                names_unique(labels@),
                load(text@) == load_body(
                    LoadState { ops: ops@.map_values(|o: Op| o@), labels: label_map(labels@) },
                    lines_from(cs@, pos as int),
                ),
            decreases n - pos,
        {
            let ghost st = LoadState { ops: ops@.map_values(|o: Op| o@), labels: label_map(labels@) };
            let e = find_newline(&cs, pos);
            let hi = line_end(&cs, pos, e);
            let (a, b) = trim_range(&cs, pos, hi);
            proof {
                lemma_lines_step(cs@, pos as int);
            }
            let next = if e < n { e + 1 } else { n };
            assert(lines_from(cs@, next as int) == lines_from(cs@, e + 1));
            if a < b {
                let line = text.substring_char(a, b);
                let lc = chars_of(line);
                if label_decl(&lc) {
                    let name = line.substring_char(0, lc.len() - 1).to_owned();
                    assert(name@ =~= lc@.drop_last());
                    match find_label(&labels, &name) {
                        Some(_) => return Err(ParseError::DuplicateLabel(name)),
                        None => {
                            let ghost old_labels = labels@;
                            labels.push((name, ops.len()));
                            assert(labels@.drop_last() =~= old_labels);
                            assert(names_unique(labels@));
                        },
                    }
                } else {
                    match Op::parse_chars(line, &lc) {
                        Ok(op) => {
                            let ghost old_ops = ops@;
                            ops.push(op);
                            assert(ops@.map_values(|o: Op| o@) =~= old_ops.map_values(|o: Op| o@).push(op@));
                        },
                        Err(e) => return Err(e),
                    }
                }
            }
            pos = next;
        }
        assert(lines_from(cs@, pos as int) =~= Seq::<Seq<char>>::empty());
        Ok(Solution { labels, ops })
    }

    /// The instructions as values of the machine's model.
    pub closed spec fn instrs(&self) -> Seq<Instr> {
        self.ops@.map_values(|o: Op| o@)
    }

    /// The label table as a map from name to address.
    pub closed spec fn label_table(&self) -> Map<Seq<char>, nat> {
        label_map(self.labels@)
    }

    /// Label names are unique.
    #[verifier::type_invariant]
    pub closed spec fn wf(&self) -> bool {
        names_unique(self.labels@)
    }

    /// The instructions, in address order.
    pub fn ops(&self) -> (r: &[Op])
        ensures
            r@.len() == self.instrs().len(),
            forall|i: int| 0 <= i < r@.len() ==> #[trigger] r@[i]@ == self.instrs()[i],
    {
        self.ops.as_slice()
    }

    /// The label table, one (name, address) entry per label.
    pub fn labels(&self) -> (r: &[(String, usize)])
        ensures
            label_map(r@) == self.label_table(),
    {
        self.labels.as_slice()
    }

    /// The number of instructions.
    pub fn len(&self) -> (r: usize)
        ensures
            r == self.instrs().len(),
    {
        self.ops.len()
    }

    /// The address bound to `name`, if any.
    pub fn lookup(&self, name: &String) -> (r: Option<usize>)
        ensures
            match r {
                Some(a) => self.label_table().contains_key(name@)
                    && self.label_table()[name@] == a as nat,
                None => !self.label_table().contains_key(name@),
            },
    {
        proof {
            use_type_invariant(self);
        }
        find_label(&self.labels, name)
    }
}

} // verus!
