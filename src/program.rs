use vstd::prelude::*;

use crate::error::{LoadFault, ParseError, ProgramError, RunFault};
use crate::solution::Solution;
use crate::text::{chars_of, skip_nonspaces, skip_space, skip_spaces, skip_word, spells};

verus! {

/// The number of executed instructions past which a run is abandoned.
pub const CYCLE_LIMIT: usize = 1000;

/// A cell of the machine. Further kinds of cell may join this one.
#[derive(Clone, Copy, Debug, PartialEq, Eq, Structural)]
pub enum Value {
    Int(i16),
}

/// One instruction of a program.
#[derive(Debug)]
pub enum Op {
    Inbox,
    Outbox,
    Jump(String),
}

/// The mathematical form of an instruction.
pub enum Instr {
    Inbox,
    Outbox,
    Jump(Seq<char>),
}

impl View for Op {
    type V = Instr;

    open spec fn view(&self) -> Instr {
        match self {
            Op::Inbox => Instr::Inbox,
            Op::Outbox => Instr::Outbox,
            Op::Jump(l) => Instr::Jump(l@),
        }
    }
}

/// The instruction that a line of program text, already trimmed, stands for.
/// Tokens are the maximal runs of non-whitespace; the first names the
/// instruction and the rest are its operands.
pub open spec fn parse_instr(t: Seq<char>) -> Result<Instr, LoadFault> {
    let a0 = skip_space(t, 0);
    let b0 = skip_word(t, a0);
    let a1 = skip_space(t, b0);
    let b1 = skip_word(t, a1);
    let a2 = skip_space(t, b1);
    let b2 = skip_word(t, a2);
    let first = t.subrange(a0, b0);
    if first == "INBOX"@ || first == "OUTBOX"@ {
        if a1 < t.len() {
            Err(LoadFault::UnexpectedToken(t.subrange(a1, b1)))
        } else if first == "INBOX"@ {
            Ok(Instr::Inbox)
        } else {
            Ok(Instr::Outbox)
        }
    } else if first == "JUMP"@ {
        if a1 >= t.len() {
            Err(LoadFault::UnexpectedToken(t))
        } else if a2 < t.len() {
            Err(LoadFault::UnexpectedToken(t.subrange(a2, b2)))
        } else {
            Ok(Instr::Jump(t.subrange(a1, b1)))
        }
    } else {
        Err(LoadFault::UnexpectedToken(t))
    }
}

/// The mathematical form of what `Op::parse` returns.
pub open spec fn parse_view(r: Result<Op, ParseError>) -> Result<Instr, LoadFault> {
    match r {
        Ok(op) => Ok(op@),
        Err(e) => Err(e@),
    }
}

impl Op {
    /// Reads one trimmed line of program text as an instruction.
    pub fn parse(s: &str) -> (r: Result<Op, ParseError>)
        ensures
            parse_view(r) == parse_instr(s@),
    {
        let cs = chars_of(s);
        Op::parse_chars(s, &cs)
    }

    /// As `parse`, given the characters of `s`.
    pub fn parse_chars(s: &str, cs: &Vec<char>) -> (r: Result<Op, ParseError>)
        requires
            cs@ == s@,
        ensures
            parse_view(r) == parse_instr(s@),
    {
        let n = cs.len();
        let a0 = skip_spaces(cs, 0);
        let b0 = skip_nonspaces(cs, a0);
        let a1 = skip_spaces(cs, b0);
        let b1 = skip_nonspaces(cs, a1);
        let a2 = skip_spaces(cs, b1);
        let b2 = skip_nonspaces(cs, a2);
        let is_inbox = spells(cs, a0, b0, "INBOX");
        let is_outbox = spells(cs, a0, b0, "OUTBOX");
        if is_inbox || is_outbox {
            if a1 < n {
                Err(ParseError::UnexpectedToken(s.substring_char(a1, b1).to_owned()))
            } else if is_inbox {
                Ok(Op::Inbox)
            } else {
                Ok(Op::Outbox)
            }
        } else if spells(cs, a0, b0, "JUMP") {
            if a1 >= n {
                Err(ParseError::UnexpectedToken(s.to_owned()))
            } else if a2 < n {
                Err(ParseError::UnexpectedToken(s.substring_char(a2, b2).to_owned()))
            } else {
                Ok(Op::Jump(s.substring_char(a1, b1).to_owned()))
            }
        } else {
            Err(ParseError::UnexpectedToken(s.to_owned()))
        }
    }
}

impl std::str::FromStr for Op {
    type Err = ParseError;

    fn from_str(s: &str) -> Result<Op, ParseError> {
        Op::parse(s)
    }
}

/// The state of a run: where it stands, what the accumulator holds, how many
/// instructions it has executed, how many inputs it has read and what it has
/// written.
pub struct Machine {
    pub pc: nat,
    pub acc: Option<Value>,
    pub cycles: nat,
    pub consumed: nat,
    pub output: Seq<Value>,
}

/// The state in which every run starts.
pub open spec fn initial_machine() -> Machine {
    Machine { pc: 0, acc: None, cycles: 0, consumed: 0, output: Seq::empty() }
}

/// `INBOX`: take the next input into the accumulator.
pub open spec fn inbox_step(input: Seq<Value>, m: Machine) -> Result<Machine, RunFault> {
    if m.consumed < input.len() {
        Ok(Machine { pc: m.pc + 1, acc: Some(input[m.consumed as int]), consumed: m.consumed + 1, ..m })
    } else {
        Err(RunFault::EndOfInput)
    }
}

/// `OUTBOX`: move the accumulator to the output.
pub open spec fn outbox_step(m: Machine) -> Result<Machine, RunFault> {
    match m.acc {
        Some(v) => Ok(Machine { pc: m.pc + 1, acc: None, output: m.output.push(v), ..m }),
        None => Err(RunFault::EmptyAccumulator),
    }
}

/// `JUMP label`: continue at the label's address.
pub open spec fn jump_step(labels: Map<Seq<char>, nat>, label: Seq<char>, m: Machine) -> Result<Machine, RunFault> {
    if labels.contains_key(label) {
        Ok(Machine { pc: labels[label], ..m })
    } else {
        Err(RunFault::UndefinedLabel(label))
    }
}

/// Executes the instruction at `m.pc`, without counting the cycle.
pub open spec fn step(ops: Seq<Instr>, labels: Map<Seq<char>, nat>, input: Seq<Value>, m: Machine) -> Result<Machine, RunFault>
    recommends
        m.pc < ops.len(),
{
    match ops[m.pc as int] {
        Instr::Inbox => inbox_step(input, m),
        Instr::Outbox => outbox_step(m),
        Instr::Jump(l) => jump_step(labels, l, m),
    }
}

/// What a run that has reached state `m` ends with: the cycle count and the
/// output once the program counter leaves the program, or the first failure.
pub open spec fn finish(ops: Seq<Instr>, labels: Map<Seq<char>, nat>, input: Seq<Value>, m: Machine) -> Result<(nat, Seq<Value>), RunFault>
    decreases CYCLE_LIMIT - m.cycles,
    when m.cycles <= CYCLE_LIMIT
{
    if m.pc >= ops.len() {
        Ok((m.cycles, m.output))
    } else {
        match step(ops, labels, input, m) {
            Err(f) => Err(f),
            Ok(n) => if m.cycles + 1 > CYCLE_LIMIT {
                Err(RunFault::MaxCyclesExceeded)
            } else {
                finish(ops, labels, input, Machine { cycles: m.cycles + 1, ..n })
            },
        }
    }
}

/// What a whole run of a program on `input` ends with.
pub open spec fn run_outcome(ops: Seq<Instr>, labels: Map<Seq<char>, nat>, input: Seq<Value>) -> Result<(nat, Seq<Value>), RunFault> {
    finish(ops, labels, input, initial_machine())
}

/// The mathematical form of what `run` returns.
pub open spec fn run_result_view(r: Result<(usize, Vec<Value>), ProgramError>) -> Result<(nat, Seq<Value>), RunFault> {
    match r {
        Ok((c, out)) => Ok((c as nat, out@)),
        Err(e) => Err(e@),
    }
}

/// The mathematical form of what one instruction's execution returns.
pub open spec fn step_view(r: Result<(), ProgramError>, m: Machine) -> Result<Machine, RunFault> {
    match r {
        Ok(()) => Ok(m),
        Err(e) => Err(e@),
    }
}

/// A run that ends normally has executed at most `CYCLE_LIMIT` instructions.
pub proof fn law_cycles_within_limit(
    ops: Seq<Instr>,
    labels: Map<Seq<char>, nat>,
    input: Seq<Value>,
    m: Machine,
)
    requires
        m.cycles <= CYCLE_LIMIT,
    ensures
        finish(ops, labels, input, m) is Ok ==> finish(ops, labels, input, m)->Ok_0.0 <= CYCLE_LIMIT,
    decreases CYCLE_LIMIT - m.cycles,
{
    if m.pc < ops.len() {
        if let Ok(n) = step(ops, labels, input, m) {
            if m.cycles + 1 <= CYCLE_LIMIT {
                law_cycles_within_limit(ops, labels, input, Machine { cycles: m.cycles + 1, ..n });
            }
        }
    }
}

/// No instruction is a jump.
pub open spec fn jump_free(ops: Seq<Instr>) -> bool {
    forall|i: int| 0 <= i < ops.len() ==> !(#[trigger] ops[i] is Jump)
}

proof fn lemma_straight_line(
    ops: Seq<Instr>,
    labels: Map<Seq<char>, nat>,
    input: Seq<Value>,
    m: Machine,
)
    requires
        jump_free(ops),
        m.cycles == m.pc,
        m.pc <= ops.len(),
        m.cycles <= CYCLE_LIMIT,
    ensures
        finish(ops, labels, input, m) is Ok ==> finish(ops, labels, input, m)->Ok_0.0 == ops.len(),
        ops.len() <= CYCLE_LIMIT ==> finish(ops, labels, input, m) != Err::<(nat, Seq<Value>), RunFault>(
            RunFault::MaxCyclesExceeded,
        ),
    decreases CYCLE_LIMIT - m.cycles,
{
    if m.pc < ops.len() {
        assert(!(ops[m.pc as int] is Jump));
        if let Ok(n) = step(ops, labels, input, m) {
            if m.cycles + 1 <= CYCLE_LIMIT {
                lemma_straight_line(ops, labels, input, Machine { cycles: m.cycles + 1, ..n });
            }
        }
    }
}

/// Without jumps the program counter only moves forward: a run that ends
/// normally has executed each instruction once, and a program of at most
/// `CYCLE_LIMIT` instructions is never cut off by the limit.
pub proof fn law_straight_line_terminates(
    ops: Seq<Instr>,
    labels: Map<Seq<char>, nat>,
    input: Seq<Value>,
)
    requires
        jump_free(ops),
    ensures
        run_outcome(ops, labels, input) is Ok ==> run_outcome(ops, labels, input)->Ok_0.0
            == ops.len(),
        ops.len() <= CYCLE_LIMIT ==> run_outcome(ops, labels, input) != Err::<(nat, Seq<Value>), RunFault>(
            RunFault::MaxCyclesExceeded,
        ),
{
    lemma_straight_line(ops, labels, input, initial_machine());
}

/// A jump to a declared label continues exactly at the label's address, with
/// nothing else changed.
pub proof fn law_jump_lands_on_label(
    ops: Seq<Instr>,
    labels: Map<Seq<char>, nat>,
    input: Seq<Value>,
    m: Machine,
    label: Seq<char>,
)
    requires
        m.pc < ops.len(),
        ops[m.pc as int] == Instr::Jump(label),
        labels.contains_key(label),
    ensures
        step(ops, labels, input, m) == Ok::<Machine, RunFault>(Machine { pc: labels[label], ..m }),
{
}

/// `INBOX` followed by `OUTBOX` writes the input that was read, unchanged, and
/// leaves the accumulator empty.
pub proof fn law_inbox_outbox_copies(
    ops: Seq<Instr>,
    labels: Map<Seq<char>, nat>,
    input: Seq<Value>,
    m: Machine,
)
    requires
        m.pc + 1 < ops.len(),
        ops[m.pc as int] == Instr::Inbox,
        ops[m.pc + 1 as int] == Instr::Outbox,
        m.consumed < input.len(),
    ensures
        step(ops, labels, input, m) is Ok,
        step(ops, labels, input, step(ops, labels, input, m)->Ok_0) == Ok::<Machine, RunFault>(
            Machine {
                pc: m.pc + 2,
                acc: None,
                consumed: m.consumed + 1,
                output: m.output.push(input[m.consumed as int]),
                ..m
            },
        ),
{
}

/// Two runs of one program on the same input end alike, whatever ran in between.
pub proof fn law_rerun_same_result(
    sol: &Solution,
    input: Seq<Value>,
    first: Result<(usize, Vec<Value>), ProgramError>,
    second: Result<(usize, Vec<Value>), ProgramError>,
)
    requires
        run_result_view(first) == run_outcome(sol.instrs(), sol.label_table(), input),
        run_result_view(second) == run_outcome(sol.instrs(), sol.label_table(), input),
    ensures
        run_result_view(first) == run_result_view(second),
{
}

/// The engine: runs a loaded program, which it borrows, against inputs.
#[derive(Debug)]
pub struct Program<'a> {
    acc: Option<Value>,
    cy: usize,
    solution: &'a Solution,
    pc: usize,
    output: Vec<Value>,
}

impl<'a> Program<'a> {
    /// The program that this engine runs.
    pub closed spec fn solution(&self) -> &'a Solution {
        self.solution
    }

    /// The engine's run state, with `consumed` inputs read.
    pub closed spec fn machine(&self, consumed: nat) -> Machine {
        Machine {
            pc: self.pc as nat,
            acc: self.acc,
            cycles: self.cy as nat,
            consumed,
            output: self.output@,
        }
    }

    /// An engine for `solution`, in the state in which every run starts.
    pub fn new(solution: &'a Solution) -> (r: Self)
        ensures
            r.solution() == solution,
            r.machine(0) == initial_machine(),
    {
        let acc = None;
        let cy: usize = 0;
        let pc: usize = 0;
        let output = Vec::new();
        Program { acc, cy, solution, pc, output }
    }

    fn reset(&mut self)
        ensures
            final(self).solution() == old(self).solution(),
            final(self).machine(0) == initial_machine(),
    {
        self.acc = None;
        self.cy = 0;
        self.output = Vec::new();
        self.pc = 0;
    }

    /// Runs the program from a fresh state on `input`. Whatever an earlier run
    /// left behind, the result depends on the program and `input` alone.
    pub fn run(&mut self, input: &[Value]) -> (r: Result<(usize, Vec<Value>), ProgramError>)
        ensures
            final(self).solution() == old(self).solution(),
            run_result_view(r) == run_outcome(
                old(self).solution().instrs(),
                old(self).solution().label_table(),
                input@,
            ),
    {
        self.reset();
        let ghost ops = self.solution.instrs();
        let ghost labels = self.solution.label_table();
        let mut consumed: usize = 0;
        while self.pc < self.solution.len()
            invariant
                self.solution == old(self).solution,
                ops == self.solution.instrs(),
                labels == self.solution.label_table(),
                self.cy <= CYCLE_LIMIT,
                consumed <= input@.len(),
                finish(ops, labels, input@, self.machine(consumed as nat)) == run_outcome(ops, labels, input@),
            decreases CYCLE_LIMIT - self.cy,
        {
            let ops_slice = self.solution.ops();
            let ghost before = self.machine(consumed as nat);
            assert(ops_slice@[self.pc as int]@ == ops[self.pc as int]);
            let r = match &ops_slice[self.pc] {
                Op::Inbox => self.inbox(input, &mut consumed),
                Op::Outbox => self.outbox(),
                Op::Jump(d) => self.jump(d),
            };
            assert(step_view(r, self.machine(consumed as nat)) == step(ops, labels, input@, before));
            if let Err(e) = r {
                return Err(e);
            }
            self.cy = self.cy + 1;
            if self.cy > CYCLE_LIMIT {
                return Err(ProgramError::MaxCyclesExceeded);
            }
        }
        let mut output: Vec<Value> = Vec::new();
        std::mem::swap(&mut output, &mut self.output);
        Ok((self.cy, output))
    }

    fn inbox(&mut self, input: &[Value], consumed: &mut usize) -> (r: Result<(), ProgramError>)
        requires
            old(self).pc < old(self).solution.instrs().len() <= usize::MAX,
            *old(consumed) <= input@.len(),
        ensures
            final(self).solution == old(self).solution,
            final(self).cy == old(self).cy,
            *final(consumed) <= input@.len(),
            step_view(r, final(self).machine(*final(consumed) as nat))
                == inbox_step(input@, old(self).machine(*old(consumed) as nat)),
            r is Err ==> final(self).machine(*final(consumed) as nat) == old(self).machine(
                *old(consumed) as nat,
            ),
    {
        if *consumed >= input.len() {
            return Err(ProgramError::EndOfInput);
        }
        let next_input = input[*consumed];
        *consumed = *consumed + 1;
        self.acc = Some(next_input);
        self.pc = self.pc + 1;
        Ok(())
    }

    fn outbox(&mut self) -> (r: Result<(), ProgramError>)
        requires
            old(self).pc < old(self).solution.instrs().len() <= usize::MAX,
        ensures
            final(self).solution == old(self).solution,
            final(self).cy == old(self).cy,
            forall|k: nat| step_view(r, #[trigger] final(self).machine(k)) == outbox_step(old(self).machine(k)),
            r is Err ==> forall|k: nat| #[trigger] final(self).machine(k) == old(self).machine(k),
    {
        match self.acc {
            None => Err(ProgramError::EmptyAccumulator),
            Some(val) => {
                self.output.push(val);
                self.acc = None;
                self.pc = self.pc + 1;
                Ok(())
            },
        }
    }

    fn jump(&mut self, to: &String) -> (r: Result<(), ProgramError>)
        ensures
            final(self).solution == old(self).solution,
            final(self).cy == old(self).cy,
            forall|k: nat| step_view(r, #[trigger] final(self).machine(k))
                == jump_step(old(self).solution.label_table(), to@, old(self).machine(k)),
            r is Err ==> forall|k: nat| #[trigger] final(self).machine(k) == old(self).machine(k),
    {
        match self.solution.lookup(to) {
            None => Err(ProgramError::UndefinedLabel(to.clone())),
            Some(a) => {
                self.pc = a;
                Ok(())
            },
        }
    }
}

} // verus!
