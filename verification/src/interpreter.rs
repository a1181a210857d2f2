//! The execution engine. It walks an instruction forest over a fixed-size
//! circular byte tape, with a cursor that wraps at both edges and cells that
//! wrap at the byte boundaries.
//!
//! The meaning of a program is the big-step relation [`sem_seq`]: a total
//! function of the program, the starting machine state and a fuel bound.
//! Fuel pays for every statement entered and every loop iteration taken, so
//! the relation is well-founded even for programs that never finish; a run
//! that exhausts its fuel answers `OutOfFuel` rather than diverging. The
//! interpreter is verified to return exactly what the relation says, for
//! every program, state and fuel.
//!
//! Two documented design choices: a loop's condition always re-reads the
//! cell the pointer addressed at loop entry, even when the body leaves the
//! pointer elsewhere; and input is strict, so reading past the end of the
//! input stream aborts the run with an I/O error instead of storing a
//! default byte.

use vstd::prelude::*;

use crate::errors::LanguageError;
use crate::statements::Statement;

use vstd::arithmetic::div_mod::{lemma_mod_add_multiples_vanish, lemma_small_mod};

verus! {

/// The number of cells on the tape.
pub const MEMORY_SIZE: usize = 1024 * 32;

/// A machine state: the tape, the cursor, the input not yet read and the
/// output written so far.
#[verifier::ext_equal]
pub struct MState {
    pub cells: Seq<u8>,
    pub ptr: int,
    pub input: Seq<u8>,
    pub output: Seq<u8>,
}

/// How a bounded run ends: normally, starved of input, or out of fuel.
pub enum Outcome {
    /// The program ran to completion, leaving this state.
    Done(MState),
    /// An `Input` statement found the input exhausted; the state reached at
    /// that moment is kept, mutations before the failure included.
    NoInput(MState),
    /// The fuel bound was reached before the program finished.
    OutOfFuel,
}

/// One added to the current cell, wrapping at 256.
pub open spec fn inc_cell(st: MState) -> MState {
    MState { cells: st.cells.update(st.ptr, (((st.cells[st.ptr] as int) + 1) % 256) as u8), ..st }
}

/// One subtracted from the current cell, wrapping below 0.
pub open spec fn dec_cell(st: MState) -> MState {
    MState { cells: st.cells.update(st.ptr, (((st.cells[st.ptr] as int) - 1) % 256) as u8), ..st }
}

/// The cursor moved one cell left, wrapping at the tape edge.
pub open spec fn move_left(st: MState) -> MState {
    MState { ptr: (st.ptr - 1 + MEMORY_SIZE as int) % (MEMORY_SIZE as int), ..st }
}

/// The cursor moved one cell right, wrapping at the tape edge.
pub open spec fn move_right(st: MState) -> MState {
    MState { ptr: (st.ptr + 1) % (MEMORY_SIZE as int), ..st }
}

/// The next input byte stored into the current cell and consumed.
pub open spec fn read_in(st: MState) -> MState {
    MState {
        cells: st.cells.update(st.ptr, st.input[0]),
        input: st.input.drop_first(),
        ..st
    }
}

/// The current cell appended to the output.
pub open spec fn write_out(st: MState) -> MState {
    MState { output: st.output.push(st.cells[st.ptr]), ..st }
}

/// The meaning of one statement from state `st` under a fuel bound.
///
/// Entering any statement costs one fuel; a loop hands the rest to
/// [`sem_loop`] with the cursor position captured at entry.
pub open spec fn sem_stmt(s: Statement, st: MState, fuel: nat) -> Outcome
    decreases fuel,
{
    if fuel == 0 {
        Outcome::OutOfFuel
    } else {
        match s {
            Statement::Increment => Outcome::Done(inc_cell(st)),
            Statement::Decrement => Outcome::Done(dec_cell(st)),
            Statement::MoveLeft => Outcome::Done(move_left(st)),
            Statement::MoveRight => Outcome::Done(move_right(st)),
            Statement::Input => if st.input.len() == 0 {
                Outcome::NoInput(st)
            } else {
                Outcome::Done(read_in(st))
            },
            Statement::Output => Outcome::Done(write_out(st)),
            Statement::Loop(body) => sem_loop(body@, st.ptr, st, (fuel - 1) as nat),
        }
    }
}

/// The meaning of a loop whose condition cell sits at the captured index
/// `p`: while the cell at `p` is non-zero, run the body, then re-check.
/// Each iteration costs one fuel.
pub open spec fn sem_loop(body: Seq<Statement>, p: int, st: MState, fuel: nat) -> Outcome
    decreases fuel,
{
    if fuel == 0 {
        Outcome::OutOfFuel
    } else if 0 <= p < st.cells.len() && st.cells[p] == 0 {
        Outcome::Done(st)
    } else {
        match sem_seq(body, st, (fuel - 1) as nat) {
            Outcome::Done(st1) => sem_loop(body, p, st1, (fuel - 1) as nat),
            o => o,
        }
    }
}

/// The meaning of a statement sequence, run left to right. Stepping past
/// each statement costs one fuel, both for the statement and for the rest.
pub open spec fn sem_seq(prog: Seq<Statement>, st: MState, fuel: nat) -> Outcome
    decreases fuel,
{
    if prog.len() == 0 {
        Outcome::Done(st)
    } else if fuel == 0 {
        Outcome::OutOfFuel
    } else {
        match sem_stmt(prog[0], st, (fuel - 1) as nat) {
            Outcome::Done(st1) => sem_seq(prog.drop_first(), st1, (fuel - 1) as nat),
            o => o,
        }
    }
}

/// Modular wraparound closure of the cells: a run of `k` increments adds
/// `k` to the current cell modulo 256, so 256 increments return a cell to
/// its starting value, and a fresh cell to zero.
pub proof fn lemma_increment_wraparound(st: MState, k: nat, fuel: nat)
    requires
        0 <= st.ptr < st.cells.len(),
        fuel >= k + 1,
    ensures
        sem_seq(Seq::new(k, |i: int| Statement::Increment), st, fuel) == Outcome::Done(
            MState {
                cells: st.cells.update(st.ptr, (((st.cells[st.ptr] as int) + k) % 256) as u8),
                ..st
            },
        ),
    decreases k,
{
    let prog = Seq::new(k, |i: int| Statement::Increment);
    if k == 0 {
        assert(st.cells.update(st.ptr, (((st.cells[st.ptr] as int) + 0) % 256) as u8)
            =~= st.cells);
        assert((MState {
            cells: st.cells.update(st.ptr, (((st.cells[st.ptr] as int) + 0) % 256) as u8),
            ..st
        }) =~= st);
    } else {
        assert(prog[0] == Statement::Increment);
        assert(prog.drop_first() =~= Seq::new((k - 1) as nat, |i: int| Statement::Increment));
        assert(sem_stmt(prog[0], st, (fuel - 1) as nat) == Outcome::Done(inc_cell(st)));
        lemma_increment_wraparound(inc_cell(st), (k - 1) as nat, (fuel - 1) as nat);
        let c = st.cells[st.ptr] as int;
        if c < 255 {
            lemma_small_mod((c + 1) as nat, 256);
        } else {
            assert((c + 1) % 256 == 0) by {
                lemma_mod_add_multiples_vanish(0, 256);
            }
            lemma_mod_add_multiples_vanish(k - 1, 256);
        }
        assert((((c + 1) % 256) + (k - 1)) % 256 == (c + k) % 256);
        assert(inc_cell(st).cells.update(
            st.ptr,
            (((inc_cell(st).cells[st.ptr] as int) + (k - 1)) % 256) as u8,
        ) =~= st.cells.update(st.ptr, (((st.cells[st.ptr] as int) + k) % 256) as u8));
        assert((MState {
            cells: inc_cell(st).cells.update(
                st.ptr,
                (((inc_cell(st).cells[st.ptr] as int) + (k - 1)) % 256) as u8,
            ),
            ..inc_cell(st)
        }) =~= (MState {
            cells: st.cells.update(st.ptr, (((st.cells[st.ptr] as int) + k) % 256) as u8),
            ..st
        }));
    }
}

/// Ring invariant of the pointer: a run of `k` right moves adds `k` to the
/// pointer modulo the capacity, so moving right exactly `MEMORY_SIZE` times
/// returns the pointer to where it started, index 0 on a fresh tape.
pub proof fn lemma_move_right_ring(st: MState, k: nat, fuel: nat)
    requires
        0 <= st.ptr < MEMORY_SIZE,
        fuel >= k + 1,
    ensures
        sem_seq(Seq::new(k, |i: int| Statement::MoveRight), st, fuel) == Outcome::Done(
            MState { ptr: (st.ptr + k) % (MEMORY_SIZE as int), ..st },
        ),
    decreases k,
{
    let prog = Seq::new(k, |i: int| Statement::MoveRight);
    if k == 0 {
        assert((MState { ptr: (st.ptr + 0) % (MEMORY_SIZE as int), ..st }) =~= st);
    } else {
        assert(prog[0] == Statement::MoveRight);
        assert(prog.drop_first() =~= Seq::new((k - 1) as nat, |i: int| Statement::MoveRight));
        assert(sem_stmt(prog[0], st, (fuel - 1) as nat) == Outcome::Done(move_right(st)));
        lemma_move_right_ring(move_right(st), (k - 1) as nat, (fuel - 1) as nat);
        let m = MEMORY_SIZE as int;
        if st.ptr < m - 1 {
            lemma_small_mod((st.ptr + 1) as nat, MEMORY_SIZE as nat);
        } else {
            assert((st.ptr + 1) % m == 0) by {
                lemma_mod_add_multiples_vanish(0, m);
            }
            lemma_mod_add_multiples_vanish(k - 1, m);
        }
        assert((move_right(st).ptr + (k - 1)) % m == (st.ptr + k) % m);
        assert((MState { ptr: (move_right(st).ptr + (k - 1)) % m, ..move_right(st) }) =~= (MState {
            ptr: (st.ptr + k) % m,
            ..st
        }));
    }
}

/// The clearing loop `[-]` started on a cell holding `v` runs exactly `v`
/// iterations and leaves the cell at zero: with fuel for `v` iterations,
/// `v + 2`, it completes, and with any less it runs out, every iteration
/// spent on one decrement.
pub proof fn lemma_clear_loop(st: MState, fuel: nat)
    requires
        0 <= st.ptr < st.cells.len(),
    ensures
        st.cells[st.ptr] == 0 && fuel >= 1 ==> sem_loop(seq![Statement::Decrement], st.ptr, st, fuel)
            == Outcome::Done(st),
        st.cells[st.ptr] > 0 && fuel >= st.cells[st.ptr] + 2 ==> sem_loop(
            seq![Statement::Decrement],
            st.ptr,
            st,
            fuel,
        ) == Outcome::Done(MState { cells: st.cells.update(st.ptr, 0u8), ..st }),
        st.cells[st.ptr] > 0 && fuel <= st.cells[st.ptr] + 1 ==> sem_loop(
            seq![Statement::Decrement],
            st.ptr,
            st,
            fuel,
        ) == Outcome::OutOfFuel,
    decreases st.cells[st.ptr],
{
    let body = seq![Statement::Decrement];
    let v = st.cells[st.ptr];
    reveal_with_fuel(sem_seq, 3);
    if v > 0 && fuel >= 3 {
        assert(body[0] == Statement::Decrement);
        assert(body.drop_first() =~= Seq::<Statement>::empty());
        assert(sem_seq(body, st, (fuel - 1) as nat) == Outcome::Done(dec_cell(st)));
        let st1 = dec_cell(st);
        assert(st1.cells[st.ptr] == v - 1);
        lemma_clear_loop(st1, (fuel - 1) as nat);
        if v == 1 {
            assert(st1 =~= (MState { cells: st.cells.update(st.ptr, 0u8), ..st }));
        } else {
            assert(st1.cells.update(st.ptr, 0u8) =~= st.cells.update(st.ptr, 0u8));
            assert((MState { cells: st1.cells.update(st.ptr, 0u8), ..st1 }) =~= (MState {
                cells: st.cells.update(st.ptr, 0u8),
                ..st
            }));
        }
    } else if v > 0 && fuel > 0 {
        assert(body[0] == Statement::Decrement);
        assert(body.drop_first() =~= Seq::<Statement>::empty());
        assert(sem_seq(body, st, (fuel - 1) as nat) == Outcome::OutOfFuel);
    }
}

/// How an interpreter call relates to the semantic outcome it implements.
spec fn flow_matches(f: Flow, o: Outcome, st: MState) -> bool {
    match f {
        Flow::Done => o == Outcome::Done(st),
        Flow::NoInput => o == Outcome::NoInput(st),
        Flow::OutOfFuel => o == Outcome::OutOfFuel,
    }
}

/// How one bounded execution step ended.
enum Flow {
    Done,
    NoInput,
    OutOfFuel,
}

/// The interpreter: a borrowed instruction forest, the input bytes with a
/// read cursor, the tape with its pointer, and the output written so far.
#[derive(Debug)]
pub struct Interpreter<'a> {
    ast: &'a [Statement],
    input: Vec<u8>,
    in_pos: usize,
    memory: Vec<u8>,
    pointer: usize,
    output: Vec<u8>,
}

impl<'a> Interpreter<'a> {
    /// The program under execution.
    pub closed spec fn prog(self) -> Seq<Statement> {
        self.ast@
    }

    /// The tape has its fixed capacity, the pointer is on the tape, and the
    /// input cursor has not passed the end of the input.
    pub closed spec fn wf(self) -> bool {
        &&& self.memory@.len() == MEMORY_SIZE
        &&& self.pointer < MEMORY_SIZE
        &&& self.in_pos <= self.input@.len()
    }

    /// The machine state this interpreter is in.
    pub closed spec fn mstate(self) -> MState {
        MState {
            cells: self.memory@,
            ptr: self.pointer as int,
            input: self.input@.skip(self.in_pos as int),
            output: self.output@,
        }
    }

    /// Create a new interpreter over the given forest and input bytes: all
    /// cells zero, the pointer at index 0, no input read, no output yet.
    pub fn new(ast: &'a [Statement], input: Vec<u8>) -> (it: Interpreter<'a>)
        ensures
            it.wf(),
            it.prog() == ast@,
            it.mstate() == (MState {
                cells: Seq::new(MEMORY_SIZE as nat, |i: int| 0u8),
                ptr: 0,
                input: input@,
                output: Seq::empty(),
            }),
    {
        let mut memory: Vec<u8> = Vec::new();
        while memory.len() < MEMORY_SIZE
            invariant
                memory@.len() <= MEMORY_SIZE,
                forall|i: int| 0 <= i < memory@.len() ==> memory@[i] == 0u8,
            decreases MEMORY_SIZE - memory@.len(),
        {
            memory.push(0);
        }
        let it = Self { ast, input, in_pos: 0, memory, pointer: 0, output: Vec::new() };
        proof {
            assert(it.mstate().cells =~= Seq::new(MEMORY_SIZE as nat, |i: int| 0u8));
            assert(it.mstate().input =~= it.input@);
            assert(it.mstate() =~= (MState {
                cells: Seq::new(MEMORY_SIZE as nat, |i: int| 0u8),
                ptr: 0,
                input: it.input@,
                output: Seq::empty(),
            }));
        }
        it
    }

    /// The bytes the run has written so far.
    pub fn output_bytes(&self) -> (out: &Vec<u8>)
        ensures
            out@ == self.mstate().output,
    {
        &self.output
    }

    /// Run the program under a caller-imposed fuel bound.
    ///
    /// Returns `Ok(true)` when the program ran to completion, `Ok(false)`
    /// when the fuel bound was reached first, and `Err(IoError)` when an
    /// `Input` statement found the input exhausted; in each case the
    /// interpreter's state is exactly what [`sem_seq`] assigns, mutations
    /// made before a failure included.
    pub fn run(&mut self, fuel: u64) -> (r: Result<bool, LanguageError>)
        requires
            old(self).wf(),
        ensures
            final(self).wf(),
            final(self).prog() == old(self).prog(),
            match r {
                Ok(true) => sem_seq(old(self).prog(), old(self).mstate(), fuel as nat)
                    == Outcome::Done(final(self).mstate()),
                Ok(false) => sem_seq(old(self).prog(), old(self).mstate(), fuel as nat)
                    == Outcome::OutOfFuel,
                Err(e) => e == LanguageError::IoError && sem_seq(
                    old(self).prog(),
                    old(self).mstate(),
                    fuel as nat,
                ) == Outcome::NoInput(final(self).mstate()),
            },
    {
        let prog: &'a [Statement] = self.ast;
        let f = self.run_seq(prog, fuel);
        match f {
            Flow::Done => Ok(true),
            Flow::OutOfFuel => Ok(false),
            Flow::NoInput => Err(LanguageError::IoError),
        }
    }

    /// Run a statement sequence left to right under a fuel bound.
    fn run_seq(&mut self, prog: &[Statement], fuel: u64) -> (f: Flow)
        requires
            old(self).wf(),
        ensures
            final(self).wf(),
            final(self).prog() == old(self).prog(),
            flow_matches(
                f,
                sem_seq(prog@, old(self).mstate(), fuel as nat),
                final(self).mstate(),
            ),
        decreases fuel,
    {
        let mut i: usize = 0;
        let mut g: u64 = fuel;
        proof {
            assert(prog@.skip(0) =~= prog@);
        }
        loop
            invariant
                self.wf(),
                self.prog() == old(self).prog(),
                i <= prog@.len(),
                g <= fuel,
                sem_seq(prog@, old(self).mstate(), fuel as nat) == sem_seq(
                    prog@.skip(i as int),
                    self.mstate(),
                    g as nat,
                ),
            decreases g,
        {
            if i >= prog.len() {
                proof {
                    assert(prog@.skip(i as int) =~= Seq::<Statement>::empty());
                }
                return Flow::Done;
            }
            if g == 0 {
                return Flow::OutOfFuel;
            }
            proof {
                assert(prog@.skip(i as int)[0] == prog@[i as int]);
            }
            let f = self.interpret(&prog[i], g - 1);
            match f {
                Flow::Done => {
                    proof {
                        assert(prog@.skip(i as int).drop_first() =~= prog@.skip(i as int + 1));
                    }
                    i = i + 1;
                    g = g - 1;
                },
                Flow::NoInput => {
                    return Flow::NoInput;
                },
                Flow::OutOfFuel => {
                    return Flow::OutOfFuel;
                },
            }
        }
    }

    /// Execute one statement under a fuel bound.
    fn interpret(&mut self, statement: &Statement, fuel: u64) -> (f: Flow)
        requires
            old(self).wf(),
        ensures
            final(self).wf(),
            final(self).prog() == old(self).prog(),
            flow_matches(
                f,
                sem_stmt(*statement, old(self).mstate(), fuel as nat),
                final(self).mstate(),
            ),
        decreases fuel,
    {
        if fuel == 0 {
            return Flow::OutOfFuel;
        }
        match statement {
            Statement::Increment => {
                self.increment();
                Flow::Done
            },
            Statement::Decrement => {
                self.decrement();
                Flow::Done
            },
            Statement::MoveLeft => {
                self.move_left();
                Flow::Done
            },
            Statement::MoveRight => {
                self.move_right();
                Flow::Done
            },
            Statement::Input => match self.input() {
                Ok(()) => Flow::Done,
                Err(_) => Flow::NoInput,
            },
            Statement::Output => {
                self.output();
                Flow::Done
            },
            Statement::Loop(body) => self.execute_loop(body, fuel - 1),
        }
    }

    /// Execute a loop: capture the pointer, then run the body while the
    /// cell at the captured index is non-zero, spending one fuel per
    /// iteration.
    fn execute_loop(&mut self, body: &Vec<Statement>, fuel: u64) -> (f: Flow)
        requires
            old(self).wf(),
        ensures
            final(self).wf(),
            final(self).prog() == old(self).prog(),
            flow_matches(
                f,
                sem_loop(body@, old(self).mstate().ptr, old(self).mstate(), fuel as nat),
                final(self).mstate(),
            ),
        decreases fuel,
    {
        let start = self.pointer;
        let mut g: u64 = fuel;
        loop
            invariant
                self.wf(),
                self.prog() == old(self).prog(),
                start == old(self).mstate().ptr,
                start < MEMORY_SIZE,
                g <= fuel,
                sem_loop(body@, start as int, old(self).mstate(), fuel as nat) == sem_loop(
                    body@,
                    start as int,
                    self.mstate(),
                    g as nat,
                ),
            decreases g,
        {
            if g == 0 {
                return Flow::OutOfFuel;
            }
            if self.memory[start] == 0 {
                return Flow::Done;
            }
            let f = self.run_seq(body.as_slice(), g - 1);
            match f {
                Flow::Done => {
                    g = g - 1;
                },
                Flow::NoInput => {
                    return Flow::NoInput;
                },
                Flow::OutOfFuel => {
                    return Flow::OutOfFuel;
                },
            }
        }
    }

    /// Add one to the current cell, wrapping at 256.
    fn increment(&mut self)
        requires
            old(self).wf(),
        ensures
            final(self).wf(),
            final(self).prog() == old(self).prog(),
            final(self).mstate() == inc_cell(old(self).mstate()),
    {
        let c = self.memory[self.pointer];
        let c2: u8 = if c == 255 {
            0
        } else {
            c + 1
        };
        self.memory[self.pointer] = c2;
    }

    /// Subtract one from the current cell, wrapping below 0.
    fn decrement(&mut self)
        requires
            old(self).wf(),
        ensures
            final(self).wf(),
            final(self).prog() == old(self).prog(),
            final(self).mstate() == dec_cell(old(self).mstate()),
    {
        let c = self.memory[self.pointer];
        let c2: u8 = if c == 0 {
            255
        } else {
            c - 1
        };
        self.memory[self.pointer] = c2;
    }

    /// Move the pointer one cell left, wrapping at the tape edge.
    fn move_left(&mut self)
        requires
            old(self).wf(),
        ensures
            final(self).wf(),
            final(self).prog() == old(self).prog(),
            final(self).mstate() == move_left(old(self).mstate()),
    {
        if self.pointer == 0 {
            self.pointer = MEMORY_SIZE - 1;
        } else {
            self.pointer = self.pointer - 1;
        }
    }

    /// Move the pointer one cell right, wrapping at the tape edge.
    fn move_right(&mut self)
        requires
            old(self).wf(),
        ensures
            final(self).wf(),
            final(self).prog() == old(self).prog(),
            final(self).mstate() == move_right(old(self).mstate()),
    {
        self.pointer = (self.pointer + 1) % MEMORY_SIZE;
    }

    /// Read one byte from the input into the current cell; with the input
    /// exhausted, fail with an I/O error and change nothing (strict mode).
    fn input(&mut self) -> (r: Result<(), LanguageError>)
        requires
            old(self).wf(),
        ensures
            final(self).wf(),
            final(self).prog() == old(self).prog(),
            match r {
                Ok(()) => old(self).mstate().input.len() > 0 && final(self).mstate() == read_in(
                    old(self).mstate(),
                ),
                Err(e) => e == LanguageError::IoError && old(self).mstate().input.len() == 0
                    && final(self).mstate() == old(self).mstate(),
            },
    {
        if self.in_pos < self.input.len() {
            let b = self.input[self.in_pos];
            self.in_pos = self.in_pos + 1;
            self.memory[self.pointer] = b;
            proof {
                assert(final(self).mstate().input =~= old(self).mstate().input.drop_first());
                assert(final(self).mstate() =~= read_in(old(self).mstate()));
            }
            Ok(())
        } else {
            Err(LanguageError::IoError)
        }
    }

    /// Write the current cell to the output.
    fn output(&mut self)
        requires
            old(self).wf(),
        ensures
            final(self).wf(),
            final(self).prog() == old(self).prog(),
            final(self).mstate() == write_out(old(self).mstate()),
    {
        let b = self.memory[self.pointer];
        self.output.push(b);
    }
}

} // verus!
