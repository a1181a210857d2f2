//! The greedy difference encoder. For each byte of a target text it emits
//! the minimal run of increments or decrements that drives a simulated
//! single cell from its current value to that byte, under the same modular
//! byte arithmetic the tape uses.
//!
//! The encoder works on one simulated cell and never moves a pointer: its
//! result holds only `Increment` and `Decrement` statements, so it is a
//! synthesis building block, not a complete program generator. A caller
//! that wants a runnable program interleaves `Output` statements itself.

use vstd::prelude::*;

use crate::statements::Statement;

verus! {

/// The low byte of a character, the value the encoder targets for it.
pub open spec fn byte_of(c: char) -> u8 {
    ((c as u32) % 256) as u8
}

/// The target bytes of a text, character for character.
pub open spec fn bytes_of(s: Seq<char>) -> Seq<u8> {
    s.map_values(|c: char| byte_of(c))
}

/// The minimal-magnitude signed difference that moves `cell` to `target`
/// modulo 256: the representative of `target - cell` in `[-128, 127]`.
pub open spec fn delta(cell: u8, target: u8) -> int {
    let d = (target as int - cell as int) % 256;
    if d <= 127 {
        d
    } else {
        d - 256
    }
}

/// The adjustment block for one target byte: `delta` increments when the
/// difference is non-negative, `-delta` decrements otherwise.
pub open spec fn adjust_block(cell: u8, target: u8) -> Seq<Statement> {
    if delta(cell, target) >= 0 {
        Seq::new(delta(cell, target) as nat, |i: int| Statement::Increment)
    } else {
        Seq::new((-delta(cell, target)) as nat, |i: int| Statement::Decrement)
    }
}

/// The whole encoding of a byte sequence: each byte's adjustment block in
/// order, the simulated cell following along so every block starts from the
/// previous target.
pub open spec fn spec_encode(ts: Seq<u8>, cell: u8) -> Seq<Statement>
    decreases ts.len(),
{
    if ts.len() == 0 {
        Seq::empty()
    } else {
        adjust_block(cell, ts[0]) + spec_encode(ts.drop_first(), ts[0])
    }
}

/// One statement applied to a lone simulated cell: increments and
/// decrements wrap modulo 256; every other statement leaves the cell alone,
/// since the single-cell model has no pointer, no input and no output.
pub open spec fn step_cell(cell: u8, s: Statement) -> u8 {
    match s {
        Statement::Increment => (((cell as int) + 1) % 256) as u8,
        Statement::Decrement => (((cell as int) - 1) % 256) as u8,
        _ => cell,
    }
}

/// A statement sequence applied to a lone simulated cell, left to right.
pub open spec fn apply_steps(cell: u8, ss: Seq<Statement>) -> u8
    decreases ss.len(),
{
    if ss.len() == 0 {
        cell
    } else {
        apply_steps(step_cell(cell, ss[0]), ss.drop_first())
    }
}

/// Applying one more statement steps the cell once after the rest.
pub proof fn lemma_apply_steps_snoc(cell: u8, ss: Seq<Statement>, s: Statement)
    ensures
        apply_steps(cell, ss.push(s)) == step_cell(apply_steps(cell, ss), s),
    decreases ss.len(),
{
    if ss.len() == 0 {
        reveal_with_fuel(apply_steps, 2);
        assert(ss.push(s)[0] == s);
        assert(ss.push(s).drop_first() =~= Seq::<Statement>::empty());
    } else {
        assert(ss.push(s).drop_first() =~= ss.drop_first().push(s));
        lemma_apply_steps_snoc(step_cell(cell, ss[0]), ss.drop_first(), s);
    }
}

/// A run of `k` increments adds `k` to the cell, modulo 256.
pub proof fn lemma_apply_incs(cell: u8, k: nat)
    ensures
        apply_steps(cell, Seq::new(k, |i: int| Statement::Increment)) == (((cell as int) + k)
            % 256) as u8,
    decreases k,
{
    let ss = Seq::new(k, |i: int| Statement::Increment);
    if k == 0 {
    } else {
        assert(ss.drop_first() =~= Seq::new((k - 1) as nat, |i: int| Statement::Increment));
        lemma_apply_incs((((cell as int) + 1) % 256) as u8, (k - 1) as nat);
    }
}

/// A run of `k` decrements subtracts `k` from the cell, modulo 256.
pub proof fn lemma_apply_decs(cell: u8, k: nat)
    ensures
        apply_steps(cell, Seq::new(k, |i: int| Statement::Decrement)) == (((cell as int) - k)
            % 256) as u8,
    decreases k,
{
    let ss = Seq::new(k, |i: int| Statement::Decrement);
    if k == 0 {
    } else {
        assert(ss.drop_first() =~= Seq::new((k - 1) as nat, |i: int| Statement::Decrement));
        lemma_apply_decs((((cell as int) - 1) % 256) as u8, (k - 1) as nat);
    }
}

/// Applying a byte's adjustment block to an independent cell that starts at
/// the same value drives that cell exactly to the target byte.
pub proof fn lemma_adjust_block_applies(cell: u8, target: u8)
    ensures
        apply_steps(cell, adjust_block(cell, target)) == target,
{
    let d = (target as int - cell as int) % 256;
    if delta(cell, target) >= 0 {
        lemma_apply_incs(cell, delta(cell, target) as nat);
    } else {
        lemma_apply_decs(cell, (-delta(cell, target)) as nat);
    }
}

/// The encoder: the text to encode and its simulated single cell.
#[derive(Debug)]
pub struct Encoder<'a> {
    text: &'a str,
    cell: u8,
}

impl<'a> Encoder<'a> {
    /// The characters of the text under encoding.
    pub closed spec fn txt(self) -> Seq<char> {
        self.text@
    }

    /// The value of the simulated cell.
    pub closed spec fn sim_cell(self) -> u8 {
        self.cell
    }

    /// Create a new encoder for the given text, its simulated cell at zero.
    pub fn new(text: &'a str) -> (e: Encoder<'a>)
        ensures
            e.txt() == text@,
            e.sim_cell() == 0,
    {
        Self { text, cell: 0 }
    }

    /// The current value of the simulated cell.
    pub fn cell(&self) -> (c: u8)
        ensures
            c == self.sim_cell(),
    {
        self.cell
    }

    /// Encode the text: for each character in order, emit the minimal
    /// adjustment block that drives the simulated cell from its current
    /// value to that character's byte, applying each block to the cell so
    /// the next difference starts from the updated value.
    pub fn encode(&mut self) -> (r: Vec<Statement>)
        ensures
            final(self).txt() == old(self).txt(),
            r@ == spec_encode(bytes_of(old(self).txt()), old(self).sim_cell()),
            final(self).sim_cell() == apply_steps(old(self).sim_cell(), r@),
    {
        let text = self.text;
        let n = text.unicode_len();
        let mut statements: Vec<Statement> = Vec::new();
        let mut i: usize = 0;
        proof {
            assert(bytes_of(text@).skip(0) =~= bytes_of(text@));
        }
        while i < n
            invariant
                i <= n,
                n == text@.len(),
                text@ == old(self).txt(),
                self.txt() == old(self).txt(),
                statements@ + spec_encode(bytes_of(text@).skip(i as int), self.sim_cell())
                    == spec_encode(bytes_of(text@), old(self).sim_cell()),
                self.sim_cell() == apply_steps(old(self).sim_cell(), statements@),
            decreases n - i,
        {
            let c = text.get_char(i);
            let u = c as u32;
            let b = (u % 256) as u8;
            proof {
                assert(b == bytes_of(text@)[i as int]);
            }
            let ghost cell0 = self.sim_cell();
            let ghost acc0 = statements@;
            let mut steps = self.backtrace(b);
            let ghost block = steps@;
            statements.append(&mut steps);
            proof {
                assert(bytes_of(text@).skip(i as int).drop_first() =~= bytes_of(text@).skip(
                    i as int + 1,
                ));
                assert((acc0 + block) + spec_encode(bytes_of(text@).skip(i as int + 1), b)
                    =~= acc0 + (block + spec_encode(bytes_of(text@).skip(i as int + 1), b)));
                lemma_apply_steps_cat(old(self).sim_cell(), acc0, block);
                lemma_adjust_block_applies(cell0, b);
            }
            i = i + 1;
        }
        proof {
            assert(bytes_of(text@).skip(n as int) =~= Seq::<u8>::empty());
            assert(statements@ + Seq::<Statement>::empty() =~= statements@);
        }
        statements
    }

    /// Emit the adjustment block for one target byte and apply it to the
    /// simulated cell, which lands exactly on the target.
    fn backtrace(&mut self, target: u8) -> (steps: Vec<Statement>)
        ensures
            final(self).txt() == old(self).txt(),
            steps@ == adjust_block(old(self).sim_cell(), target),
            final(self).sim_cell() == target,
    {
        let cell = self.cell;
        let wide: u16 = ((target as u16) + 256 - (cell as u16)) % 256;
        let du: u8 = wide as u8;
        proof {
            assert(du as int == (target as int - cell as int) % 256);
        }
        let mut steps: Vec<Statement> = Vec::new();
        if du <= 127 {
            while steps.len() < du as usize
                invariant
                    steps@.len() <= du,
                    forall|j: int| 0 <= j < steps@.len() ==> steps@[j] == Statement::Increment,
                decreases du - steps@.len(),
            {
                steps.push(Statement::Increment);
            }
            proof {
                assert(steps@ =~= adjust_block(cell, target));
            }
        } else {
            let count: usize = 256 - du as usize;
            while steps.len() < count
                invariant
                    count == 256 - du,
                    steps@.len() <= count,
                    forall|j: int| 0 <= j < steps@.len() ==> steps@[j] == Statement::Decrement,
                decreases count - steps@.len(),
            {
                steps.push(Statement::Decrement);
            }
            proof {
                assert(steps@ =~= adjust_block(cell, target));
            }
        }
        self.apply(steps.as_slice());
        proof {
            lemma_adjust_block_applies(cell, target);
        }
        steps
    }

    /// Apply a statement sequence to the simulated cell: increments and
    /// decrements wrap modulo 256, every other statement is ignored in the
    /// single-cell model.
    pub fn apply(&mut self, steps: &[Statement])
        ensures
            final(self).txt() == old(self).txt(),
            final(self).sim_cell() == apply_steps(old(self).sim_cell(), steps@),
    {
        let mut i: usize = 0;
        proof {
            assert(steps@.take(0) =~= Seq::<Statement>::empty());
        }
        while i < steps.len()
            invariant
                i <= steps@.len(),
                self.txt() == old(self).txt(),
                self.sim_cell() == apply_steps(old(self).sim_cell(), steps@.take(i as int)),
            decreases steps@.len() - i,
        {
            proof {
                assert(steps@.take(i as int).push(steps@[i as int]) =~= steps@.take(i as int + 1));
                lemma_apply_steps_snoc(old(self).sim_cell(), steps@.take(i as int), steps@[i as int]);
            }
            match steps[i] {
                Statement::Increment => {
                    let c = self.cell;
                    self.cell = if c == 255 {
                        0
                    } else {
                        c + 1
                    };
                },
                Statement::Decrement => {
                    let c = self.cell;
                    self.cell = if c == 0 {
                        255
                    } else {
                        c - 1
                    };
                },
                _ => {},
            }
            i = i + 1;
        }
        proof {
            assert(steps@.take(steps@.len() as int) =~= steps@);
        }
    }
}

/// Applying a concatenation applies the first part, then the second.
pub proof fn lemma_apply_steps_cat(cell: u8, a: Seq<Statement>, b: Seq<Statement>)
    ensures
        apply_steps(cell, a + b) == apply_steps(apply_steps(cell, a), b),
    decreases a.len(),
{
    if a.len() == 0 {
        assert(a + b =~= b);
    } else {
        assert((a + b)[0] == a[0]);
        assert((a + b).drop_first() =~= a.drop_first() + b);
        lemma_apply_steps_cat(step_cell(cell, a[0]), a.drop_first(), b);
    }
}

} // verus!
