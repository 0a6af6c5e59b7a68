//! The execution engine: a fixed 30,000-cell byte tape, a data pointer,
//! a program counter, an instruction counter and an output accumulator.
//! One instruction is executed per step; running to completion repeats
//! steps until the program counter passes the end of the program.
//!
//! Two conditions the language leaves open are made explicit errors
//! here: moving the data pointer off either end of the tape, and taking
//! a jump whose bracket has no match.

use vstd::prelude::*;

use crate::matching::{jump_backward_spec, jump_forward_spec, bwd_scan, fwd_scan};
use crate::opcode::{load_spec, Instructions};

verus! {

/// Number of cells on the tape.
pub const TAPE_LEN: usize = 30000;

/// Why a step did not execute an instruction. `Exhausted` is the normal
/// termination signal: the program counter has passed the end of the
/// program. The other two report a fatal fault of the program being run.
#[derive(Clone, Copy, Debug, PartialEq, Eq, Structural)]
pub enum StepError {
    /// No instruction is left at the program counter.
    Exhausted,
    /// A move would take the data pointer off the tape.
    TapeOutOfBounds,
    /// A taken jump has no matching bracket.
    UnmatchedBracket,
}

/// How a budgeted run ended: the program ran out of instructions (the
/// success path, reporting the instruction counter), a step faulted, or
/// the step budget was spent first.
#[derive(Clone, Copy, Debug, PartialEq, Eq, Structural)]
pub enum RunOutcome {
    /// The program counter passed the end of the program after this many
    /// executed instructions.
    Finished(u64),
    /// A step failed: the tape was left or a bracket is unmatched.
    Faulted(StepError),
    /// The budget ran out with instructions still left.
    Paused,
}

/// The mathematical state of the engine: what [`Program`] looks like in
/// contracts.
#[verifier::ext_equal]
pub struct State {
    pub instructions: Seq<Instructions>,
    pub memory: Seq<u8>,
    pub dp: int,
    pub pc: int,
    pub output: Seq<u8>,
    pub counter: u64,
    pub input: Seq<u8>,
    pub input_pos: int,
}

/// The engine. The instruction sequence is fixed after load; the tape,
/// the pointers, the counter, the output accumulator and the input cursor
/// evolve one step at a time.
pub struct Program {
    pub instructions: Vec<Instructions>,
    pub memory: Vec<u8>,
    pub dp: usize,
    pub pc: usize,
    pub output: Vec<u8>,
    pub counter: u64,
    pub input: Vec<u8>,
    pub input_pos: usize,
}

impl View for Program {
    type V = State;

    open spec fn view(&self) -> State {
        State {
            instructions: self.instructions@,
            memory: self.memory@,
            dp: self.dp as int,
            pc: self.pc as int,
            output: self.output@,
            counter: self.counter,
            input: self.input@,
            input_pos: self.input_pos as int,
        }
    }
}

/// The engine's invariant: a full tape, the data pointer on it, the
/// program counter at most one past the last instruction, and the input
/// cursor inside the input.
pub open spec fn state_wf(s: State) -> bool {
    &&& s.memory.len() == TAPE_LEN
    &&& 0 <= s.dp < TAPE_LEN as int
    &&& 0 <= s.pc <= s.instructions.len()
    &&& 0 <= s.input_pos <= s.input.len()
}

/// A byte incremented with wrapping overflow: 255 yields 0.
pub open spec fn byte_inc(b: u8) -> u8 {
    (((b as int) + 1) % 256) as u8
}

/// A byte decremented with wrapping underflow: 0 yields 255.
pub open spec fn byte_dec(b: u8) -> u8 {
    (((b as int) + 255) % 256) as u8
}

/// The instruction counter, incremented once per executed instruction
/// (saturating at the top of its range).
pub open spec fn counter_bump(c: u64) -> u64 {
    if c == u64::MAX {
        c
    } else {
        (c + 1) as u64
    }
}

/// One step of the engine: fetch the instruction at the program counter
/// and dispatch on it. A failed step leaves the state unchanged; the
/// instruction counter moves exactly once per executed instruction. The
/// byte result is what the step emitted to the output.
pub open spec fn step_spec(s: State) -> (State, Result<Option<u8>, StepError>) {
    if !(0 <= s.pc < s.instructions.len()) {
        (s, Err(StepError::Exhausted))
    } else {
        match s.instructions[s.pc] {
            Instructions::MoveRight => {
                if s.dp + 1 < TAPE_LEN as int {
                    (
                        State { dp: s.dp + 1, pc: s.pc + 1, counter: counter_bump(s.counter), ..s },
                        Ok(None),
                    )
                } else {
                    (s, Err(StepError::TapeOutOfBounds))
                }
            },
            Instructions::MoveLeft => {
                if s.dp > 0 {
                    (
                        State { dp: s.dp - 1, pc: s.pc + 1, counter: counter_bump(s.counter), ..s },
                        Ok(None),
                    )
                } else {
                    (s, Err(StepError::TapeOutOfBounds))
                }
            },
            Instructions::Increment => {
                (
                    State {
                        memory: s.memory.update(s.dp, byte_inc(s.memory[s.dp])),
                        pc: s.pc + 1,
                        counter: counter_bump(s.counter),
                        ..s
                    },
                    Ok(None),
                )
            },
            Instructions::Decrement => {
                (
                    State {
                        memory: s.memory.update(s.dp, byte_dec(s.memory[s.dp])),
                        pc: s.pc + 1,
                        counter: counter_bump(s.counter),
                        ..s
                    },
                    Ok(None),
                )
            },
            Instructions::Output => {
                (
                    State {
                        output: s.output.push(s.memory[s.dp]),
                        pc: s.pc + 1,
                        counter: counter_bump(s.counter),
                        ..s
                    },
                    Ok(Some(s.memory[s.dp])),
                )
            },
            Instructions::Input => {
                if s.input_pos < s.input.len() {
                    (
                        State {
                            memory: s.memory.update(s.dp, s.input[s.input_pos]),
                            input_pos: s.input_pos + 1,
                            pc: s.pc + 1,
                            counter: counter_bump(s.counter),
                            ..s
                        },
                        Ok(None),
                    )
                } else {
                    (State { pc: s.pc + 1, counter: counter_bump(s.counter), ..s }, Ok(None))
                }
            },
            Instructions::JumpIfZero => {
                if s.memory[s.dp] == 0 {
                    match jump_forward_spec(s.instructions, s.pc) {
                        Some(t) => (
                            State { pc: t, counter: counter_bump(s.counter), ..s },
                            Ok(None),
                        ),
                        None => (s, Err(StepError::UnmatchedBracket)),
                    }
                } else {
                    (State { pc: s.pc + 1, counter: counter_bump(s.counter), ..s }, Ok(None))
                }
            },
            Instructions::JumpIfNonZero => {
                if s.memory[s.dp] != 0 {
                    match jump_backward_spec(s.instructions, s.pc) {
                        Some(t) => (
                            State { pc: t, counter: counter_bump(s.counter), ..s },
                            Ok(None),
                        ),
                        None => (s, Err(StepError::UnmatchedBracket)),
                    }
                } else {
                    (State { pc: s.pc + 1, counter: counter_bump(s.counter), ..s }, Ok(None))
                }
            },
        }
    }
}

/// The state after one step (unchanged where the step failed).
pub open spec fn step_state(s: State) -> State {
    step_spec(s).0
}

/// The state after `k` steps.
pub open spec fn run_n(s: State, k: nat) -> State
    decreases k,
{
    if k == 0 {
        s
    } else {
        step_state(run_n(s, (k - 1) as nat))
    }
}

/// The first `k` steps from `s` all execute an instruction.
pub open spec fn ok_prefix(s: State, k: nat) -> bool {
    forall|j: nat| j < k ==> (#[trigger] step_spec(run_n(s, j))).1 is Ok
}

/// A single step never rewrites the program or the supplied input.
pub proof fn lemma_step_preserves_program(s: State)
    ensures
        step_state(s).instructions == s.instructions,
        step_state(s).input == s.input,
{
}

/// The program and the supplied input are fixed for the whole run: no
/// number of steps mutates the instruction sequence.
pub proof fn lemma_run_preserves_program(s: State, k: nat)
    ensures
        run_n(s, k).instructions == s.instructions,
        run_n(s, k).input == s.input,
    decreases k,
{
    if k > 0 {
        lemma_run_preserves_program(s, (k - 1) as nat);
        lemma_step_preserves_program(run_n(s, (k - 1) as nat));
    }
}

/// Every step that executes an instruction keeps the engine's invariant:
/// the tape length is fixed, the data pointer stays on the tape, and the
/// program counter lands at most one past the last instruction — also
/// where it was redirected by a jump.
pub proof fn lemma_step_preserves_wf(s: State)
    requires
        state_wf(s),
        step_spec(s).1 is Ok,
    ensures
        state_wf(step_state(s)),
{
    if 0 <= s.pc < s.instructions.len() {
        match s.instructions[s.pc] {
            Instructions::JumpIfZero => {
                if s.memory[s.dp] == 0 {
                    match jump_forward_spec(s.instructions, s.pc) {
                        Some(t) => {
                            crate::matching::lemma_fwd_scan_found(s.instructions, s.pc + 1, 1, t);
                        },
                        None => {},
                    }
                }
            },
            Instructions::JumpIfNonZero => {
                if s.memory[s.dp] != 0 {
                    match jump_backward_spec(s.instructions, s.pc) {
                        Some(t) => {
                            crate::matching::lemma_bwd_scan_found(s.instructions, s.pc - 1, 1, t);
                        },
                        None => {},
                    }
                }
            },
            _ => {},
        }
    }
}

/// The engine's invariant holds along any run whose steps all executed.
pub proof fn lemma_run_preserves_wf(s: State, k: nat)
    requires
        state_wf(s),
        ok_prefix(s, k),
    ensures
        state_wf(run_n(s, k)),
    decreases k,
{
    if k > 0 {
        let kp = (k - 1) as nat;
        assert(ok_prefix(s, kp));
        lemma_run_preserves_wf(s, kp);
        assert(step_spec(run_n(s, kp)).1 is Ok);
        lemma_step_preserves_wf(run_n(s, kp));
    }
}

/// Incrementing wraps 255 to 0 and decrementing wraps 0 to 255, on every
/// cell value: an executed `+` or `-` stores the wrapped byte.
pub proof fn lemma_wrapping_cell(s: State)
    requires
        state_wf(s),
        0 <= s.pc < s.instructions.len(),
    ensures
        s.instructions[s.pc] is Increment ==> step_state(s).memory[s.dp] == ((s.memory[s.dp]
            + 1) % 256) && (s.memory[s.dp] == 255 ==> step_state(s).memory[s.dp] == 0),
        s.instructions[s.pc] is Decrement ==> step_state(s).memory[s.dp] == ((s.memory[s.dp]
            + 255) % 256) && (s.memory[s.dp] == 0 ==> step_state(s).memory[s.dp] == 255),
{
}

/// No jump instruction anywhere in the program.
pub open spec fn straight_line(prog: Seq<Instructions>) -> bool {
    forall|i: int|
        0 <= i < prog.len() ==> !((#[trigger] prog[i]) is JumpIfZero) && !(prog[i]
            is JumpIfNonZero)
}

/// On a loop-free program, every executed step advances the program
/// counter by exactly one and counts exactly one instruction.
proof fn lemma_straight_line_progress(s: State, k: nat)
    requires
        straight_line(s.instructions),
        s.instructions.len() <= u64::MAX,
        s.pc == 0,
        s.counter == 0,
        ok_prefix(s, k),
    ensures
        k <= s.instructions.len(),
        run_n(s, k).pc == k,
        run_n(s, k).counter == k,
    decreases k,
{
    if k > 0 {
        let kp = (k - 1) as nat;
        assert(ok_prefix(s, kp));
        lemma_straight_line_progress(s, kp);
        lemma_run_preserves_program(s, kp);
        let t = run_n(s, kp);
        assert(step_spec(t).1 is Ok);
        assert(t.pc < t.instructions.len());
        assert(!(t.instructions[t.pc] is JumpIfZero) && !(t.instructions[t.pc] is JumpIfNonZero));
        assert(run_n(s, k) == step_state(t));
        assert(step_state(t).pc == t.pc + 1 && step_state(t).counter == counter_bump(t.counter));
    }
}

/// Run-to-completion on a loop-free program executes exactly one step per
/// instruction: a run from the initial state that ends in exhaustion took
/// as many steps as there are instructions, and its instruction counter —
/// the count it reports — equals the program length.
pub proof fn lemma_straight_line_run(s: State, k: nat)
    requires
        straight_line(s.instructions),
        s.instructions.len() <= u64::MAX,
        s.pc == 0,
        s.counter == 0,
        ok_prefix(s, k),
        run_n(s, k).pc >= run_n(s, k).instructions.len(),
    ensures
        k == s.instructions.len(),
        run_n(s, k).counter == s.instructions.len(),
{
    lemma_straight_line_progress(s, k);
    lemma_run_preserves_program(s, k);
}

impl Program {
    /// The engine's invariant, stated over its view.
    pub open spec fn wf(self) -> bool {
        state_wf(self@)
    }

    /// Load a program from source text: scan the bytes left to right,
    /// keep the eight opcode characters, skip everything else. The tape
    /// starts all zero; both pointers, the counter, the output
    /// accumulator and the input buffer start empty.
    pub fn load(source: &[u8]) -> (p: Program)
        ensures
            p.wf(),
            p@.instructions == load_spec(source@),
            p@.memory.len() == TAPE_LEN,
            forall|i: int| 0 <= i < TAPE_LEN as int ==> p@.memory[i] == 0u8,
            p@.dp == 0,
            p@.pc == 0,
            p@.output == Seq::<u8>::empty(),
            p@.counter == 0,
            p@.input == Seq::<u8>::empty(),
            p@.input_pos == 0,
    {
        let mut instructions: Vec<Instructions> = Vec::new();
        let mut i: usize = 0;
        while i < source.len()
            invariant
                i <= source@.len(),
                instructions@ == load_spec(source@.take(i as int)),
            decreases source@.len() - i,
        {
            proof {
                assert(source@.take(i + 1).drop_last() =~= source@.take(i as int));
                assert(source@.take(i + 1).last() == source@[i as int]);
            }
            match crate::opcode::decode_byte(source[i]) {
                Some(op) => {
                    instructions.push(op);
                    proof {
                        assert(instructions@ =~= load_spec(source@.take(i + 1)));
                    }
                },
                None => {
                    proof {
                        assert(instructions@ =~= load_spec(source@.take(i + 1)));
                    }
                },
            }
            i += 1;
        }
        proof {
            assert(source@.take(source@.len() as int) =~= source@);
        }
        let mut memory: Vec<u8> = Vec::new();
        while memory.len() < TAPE_LEN
            invariant
                memory@.len() <= TAPE_LEN,
                forall|j: int| 0 <= j < memory@.len() ==> memory@[j] == 0u8,
            decreases TAPE_LEN - memory@.len(),
        {
            memory.push(0);
        }
        Program {
            instructions,
            memory,
            dp: 0,
            pc: 0,
            output: Vec::new(),
            counter: 0,
            input: Vec::new(),
            input_pos: 0,
        }
    }

    /// Resolve the forward jump of the `[` at the program counter: scan
    /// right with a nesting counter starting at 1, raising it at `[` and
    /// lowering it at `]`; the target is just past the `]` that brings it
    /// to 0. `None` when the bracket has no match.
    pub fn jump_forward(&self) -> (r: Option<usize>)
        requires
            self.wf(),
            self@.pc < self@.instructions.len(),
        ensures
            match r {
                Some(t) => jump_forward_spec(self@.instructions, self@.pc) == Some(t as int)
                    && self@.pc < t <= self@.instructions.len(),
                None => jump_forward_spec(self@.instructions, self@.pc) is None,
            },
    {
        let n = self.instructions.len();
        let mut idx: usize = self.pc + 1;
        let mut depth: usize = 1;
        while idx < n
            invariant
                self.wf(),
                self@.pc < n,
                n == self@.instructions.len(),
                self@.pc + 1 <= idx <= n,
                1 <= depth <= idx - self@.pc,
                fwd_scan(self@.instructions, self@.pc + 1, 1) == fwd_scan(
                    self@.instructions,
                    idx as int,
                    depth as int,
                ),
            decreases n - idx,
        {
            match self.instructions[idx] {
                Instructions::JumpIfNonZero => {
                    if depth == 1 {
                        return Some(idx + 1);
                    } else {
                        depth -= 1;
                    }
                },
                Instructions::JumpIfZero => {
                    depth += 1;
                },
                _ => {},
            }
            idx += 1;
        }
        None
    }

    /// Resolve the backward jump of the `]` at the program counter: the
    /// mirror scan, leftward, with the bracket roles swapped; the target
    /// is just past the matching `[`. `None` when the bracket has no
    /// match.
    pub fn jump_backwards(&self) -> (r: Option<usize>)
        requires
            self.wf(),
            self@.pc < self@.instructions.len(),
        ensures
            match r {
                Some(t) => jump_backward_spec(self@.instructions, self@.pc) == Some(t as int)
                    && 0 < t <= self@.pc,
                None => jump_backward_spec(self@.instructions, self@.pc) is None,
            },
    {
        let n = self.instructions.len();
        let mut idx: usize = self.pc;
        let mut depth: usize = 1;
        while idx > 0
            invariant
                self.wf(),
                n == self@.instructions.len(),
                self@.pc < n,
                idx <= self@.pc,
                1 <= depth <= self@.pc - idx + 1,
                bwd_scan(self@.instructions, self@.pc - 1, 1) == bwd_scan(
                    self@.instructions,
                    idx - 1,
                    depth as int,
                ),
            decreases idx,
        {
            let j = idx - 1;
            match self.instructions[j] {
                Instructions::JumpIfZero => {
                    if depth == 1 {
                        return Some(j + 1);
                    } else {
                        depth -= 1;
                    }
                },
                Instructions::JumpIfNonZero => {
                    depth += 1;
                },
                _ => {},
            }
            idx = j;
        }
        None
    }

    /// Execute one instruction, as [`step_spec`] says: fetch at the
    /// program counter — reporting `Exhausted` when nothing is left, the
    /// normal termination signal — and dispatch. Returns the byte the
    /// step emitted, if any; a failed step leaves the engine unchanged.
    pub fn step(&mut self) -> (r: Result<Option<u8>, StepError>)
        requires
            old(self).wf(),
        ensures
            final(self).wf(),
            final(self)@ == step_spec(old(self)@).0,
            r == step_spec(old(self)@).1,
    {
        if self.pc >= self.instructions.len() {
            return Err(StepError::Exhausted);
        }
        let bumped = if self.counter < u64::MAX {
            self.counter + 1
        } else {
            self.counter
        };
        match self.instructions[self.pc] {
            Instructions::MoveRight => {
                if self.dp + 1 >= TAPE_LEN {
                    return Err(StepError::TapeOutOfBounds);
                }
                self.dp += 1;
                self.pc += 1;
                self.counter = bumped;
                Ok(None)
            },
            Instructions::MoveLeft => {
                if self.dp == 0 {
                    return Err(StepError::TapeOutOfBounds);
                }
                self.dp -= 1;
                self.pc += 1;
                self.counter = bumped;
                Ok(None)
            },
            Instructions::Increment => {
                let m = self.memory[self.dp];
                let v = if m == 255 {
                    0
                } else {
                    m + 1
                };
                assert(v == byte_inc(m));
                self.memory[self.dp] = v;
                self.pc += 1;
                self.counter = bumped;
                Ok(None)
            },
            Instructions::Decrement => {
                let m = self.memory[self.dp];
                let v = if m == 0 {
                    255
                } else {
                    m - 1
                };
                assert(v == byte_dec(m));
                self.memory[self.dp] = v;
                self.pc += 1;
                self.counter = bumped;
                Ok(None)
            },
            Instructions::Output => {
                let b = self.memory[self.dp];
                self.output.push(b);
                self.pc += 1;
                self.counter = bumped;
                Ok(Some(b))
            },
            Instructions::Input => {
                if self.input_pos < self.input.len() {
                    let b = self.input[self.input_pos];
                    self.memory[self.dp] = b;
                    self.input_pos += 1;
                }
                self.pc += 1;
                self.counter = bumped;
                Ok(None)
            },
            Instructions::JumpIfZero => {
                if self.memory[self.dp] == 0 {
                    match self.jump_forward() {
                        Some(t) => {
                            self.pc = t;
                        },
                        None => {
                            return Err(StepError::UnmatchedBracket);
                        },
                    }
                } else {
                    self.pc += 1;
                }
                self.counter = bumped;
                Ok(None)
            },
            Instructions::JumpIfNonZero => {
                if self.memory[self.dp] != 0 {
                    match self.jump_backwards() {
                        Some(t) => {
                            self.pc = t;
                        },
                        None => {
                            return Err(StepError::UnmatchedBracket);
                        },
                    }
                } else {
                    self.pc += 1;
                }
                self.counter = bumped;
                Ok(None)
            },
        }
    }

    /// Step until the program is exhausted — which is success, reporting
    /// the instruction counter — until a step fails for another reason,
    /// which propagates that error with the state preserved as of the
    /// failure, or until the step budget is spent. The language's loops
    /// may diverge, so a run is always driven under a finite budget; a
    /// paused run may simply be resumed with more.
    pub fn run(&mut self, fuel: u64) -> (r: RunOutcome)
        requires
            old(self).wf(),
        ensures
            final(self).wf(),
            match r {
                RunOutcome::Finished(n) => exists|k: nat|
                    k <= fuel && #[trigger] ok_prefix(old(self)@, k) && final(self)@ == run_n(
                        old(self)@,
                        k,
                    ) && final(self)@.pc >= final(self)@.instructions.len()
                        && n == final(self)@.counter,
                RunOutcome::Faulted(e) => !(e is Exhausted) && exists|k: nat|
                    k < fuel && #[trigger] ok_prefix(old(self)@, k) && final(self)@ == run_n(
                        old(self)@,
                        k,
                    ) && step_spec(final(self)@).1 == Err::<Option<u8>, StepError>(e),
                RunOutcome::Paused => ok_prefix(old(self)@, fuel as nat) && final(self)@ == run_n(
                    old(self)@,
                    fuel as nat,
                ) && final(self)@.pc < final(self)@.instructions.len(),
            },
    {
        let ghost s0 = self@;
        let mut used: u64 = 0;
        while used < fuel
            invariant
                self.wf(),
                s0 == old(self)@,
                used <= fuel,
                ok_prefix(s0, used as nat),
                self@ == run_n(s0, used as nat),
            decreases fuel - used,
        {
            let res = self.step();
            match res {
                Ok(_) => {
                    proof {
                        assert(run_n(s0, (used + 1) as nat) == step_state(run_n(s0, used as nat)));
                        assert forall|j: nat| j < used + 1 implies (#[trigger] step_spec(
                            run_n(s0, j),
                        )).1 is Ok by {}
                    }
                    used += 1;
                },
                Err(e) => {
                    match e {
                        StepError::Exhausted => {
                            return RunOutcome::Finished(self.counter);
                        },
                        _ => {
                            return RunOutcome::Faulted(e);
                        },
                    }
                },
            }
        }
        if self.pc >= self.instructions.len() {
            RunOutcome::Finished(self.counter)
        } else {
            RunOutcome::Paused
        }
    }

    /// Step `n` times, stopping early at the first step that fails and
    /// reporting its error with the state preserved as of the failure.
    pub fn step_many(&mut self, n: usize) -> (r: Result<(), StepError>)
        requires
            old(self).wf(),
        ensures
            final(self).wf(),
            match r {
                Ok(_) => ok_prefix(old(self)@, n as nat) && final(self)@ == run_n(
                    old(self)@,
                    n as nat,
                ),
                Err(e) => exists|k: nat|
                    k < n as nat && #[trigger] ok_prefix(old(self)@, k) && final(self)@ == run_n(
                        old(self)@,
                        k,
                    ) && step_spec(final(self)@).1 == Err::<Option<u8>, StepError>(e),
            },
    {
        let ghost s0 = self@;
        let mut i: usize = 0;
        while i < n
            invariant
                self.wf(),
                s0 == old(self)@,
                i <= n,
                ok_prefix(s0, i as nat),
                self@ == run_n(s0, i as nat),
            decreases n - i,
        {
            let res = self.step();
            match res {
                Ok(_) => {
                    proof {
                        assert(run_n(s0, (i + 1) as nat) == step_state(run_n(s0, i as nat)));
                        assert forall|j: nat| j < i + 1 implies (#[trigger] step_spec(
                            run_n(s0, j),
                        )).1 is Ok by {}
                    }
                    i += 1;
                },
                Err(e) => {
                    return Err(e);
                },
            }
        }
        Ok(())
    }

    /// True when the next instruction to execute is `,`: the caller may
    /// buffer another input byte before stepping.
    pub fn wants_input(&self) -> (b: bool)
        requires
            self.wf(),
        ensures
            b == (self@.pc < self@.instructions.len() && self@.instructions[self@.pc] is Input),
    {
        self.pc < self.instructions.len() && matches!(self.instructions[self.pc], Instructions::Input)
    }

    /// True when every buffered input byte has been consumed: the next
    /// `,` will be a silent no-op unless more input is pushed.
    pub fn input_exhausted(&self) -> (b: bool)
        requires
            self.wf(),
        ensures
            b == (self@.input_pos >= self@.input.len()),
    {
        self.input_pos >= self.input.len()
    }

    /// Append one byte to the input buffer that `,` consumes.
    pub fn push_input(&mut self, b: u8)
        requires
            old(self).wf(),
        ensures
            final(self).wf(),
            final(self)@ == (State { input: old(self)@.input.push(b), ..old(self)@ }),
    {
        self.input.push(b);
    }

    /// The accumulated output: every byte emitted so far, in order.
    pub fn output(&self) -> (o: &Vec<u8>)
        ensures
            o@ == self@.output,
    {
        &self.output
    }

    /// The instruction counter: how many instructions have executed.
    pub fn counter(&self) -> (c: u64)
        ensures
            c == self@.counter,
    {
        self.counter
    }

    /// The current data pointer.
    pub fn dp(&self) -> (d: usize)
        ensures
            d == self@.dp,
    {
        self.dp
    }

    /// `amount` consecutive tape cells starting at `index`, or `None`
    /// where that range leaves the tape.
    pub fn cells(&self, index: usize, amount: usize) -> (r: Option<Vec<u8>>)
        requires
            self.wf(),
        ensures
            match r {
                Some(v) => index + amount <= TAPE_LEN && v@ == self@.memory.subrange(
                    index as int,
                    index + amount,
                ),
                None => index + amount > TAPE_LEN,
            },
    {
        if amount > TAPE_LEN || index > TAPE_LEN - amount {
            return None;
        }
        let mut v: Vec<u8> = Vec::new();
        let mut i: usize = 0;
        while i < amount
            invariant
                self.wf(),
                i <= amount,
                index + amount <= TAPE_LEN,
                v@ == self@.memory.subrange(index as int, index + i),
            decreases amount - i,
        {
            v.push(self.memory[index + i]);
            proof {
                assert(v@ =~= self@.memory.subrange(index as int, index + i + 1));
            }
            i += 1;
        }
        Some(v)
    }
}

} // verus!
