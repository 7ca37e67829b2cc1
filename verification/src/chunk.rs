use crate::util::{dec_digits, u64_to_string};
use crate::value::Value;
use vstd::prelude::*;

verus! {

/// The virtual machine's instruction set. Operand-carrying variants hold a
/// constant-pool index, a stack slot, or a jump distance, inline.
#[allow(non_camel_case_types)]
#[derive(Clone, Copy, PartialEq, Eq, Structural, Debug)]
pub enum OpCode {
    OP_CONSTANT(usize),
    OP_NIL,
    OP_TRUE,
    OP_FALSE,
    OP_POP,
    OP_EQUAL,
    OP_GREATER,
    OP_LESS,
    OP_ADD,
    OP_SUBTRACT,
    OP_MULTIPLY,
    OP_DIVIDE,
    OP_NOT,
    OP_NEGATE,
    OP_PRINT,
    OP_ASSERT_EQ,
    OP_DEFINE_GLOBAL(usize),
    OP_GET_GLOBAL(usize),
    OP_SET_GLOBAL(usize),
    OP_GET_LOCAL(usize),
    OP_SET_LOCAL(usize),
    OP_JUMP(usize),
    OP_JUMP_IF_FALSE(usize),
    OP_LOOP(usize),
    OP_RETURN,
    OP_DEBUG,
}

/// The total number of instructions a run-length line table accounts for.
pub open spec fn sum_runs(runs: Seq<usize>) -> int
    decreases runs.len(),
{
    if runs.len() == 0 {
        0
    } else {
        runs.first() + sum_runs(runs.drop_first())
    }
}

/// Which source line produced the instruction at `offset`, per the table:
/// run k covers the next `runs[k]` instructions and stands for line k + 1;
/// a skipped source line is present as a run of length zero, so the
/// numbering stays aligned. Offsets past the table's total fall back to
/// the last line, and an empty table answers zero.
pub open spec fn line_of(runs: Seq<usize>, offset: int) -> int
    decreases runs.len(),
{
    if runs.len() == 0 {
        0
    } else if offset < runs.first() {
        1
    } else {
        1 + line_of(runs.drop_first(), offset - runs.first())
    }
}

pub open spec fn repeat_line(line: int, count: nat) -> Seq<int> {
    Seq::new(count, |i: int| line)
}

pub open spec fn line_seq_from(runs: Seq<usize>, base: int) -> Seq<int>
    decreases runs.len(),
{
    if runs.len() == 0 {
        Seq::empty()
    } else {
        repeat_line(base, runs.first() as nat) + line_seq_from(runs.drop_first(), base + 1)
    }
}

/// The source line of every instruction in table order: run k contributes
/// runs[k] copies of line k + 1.
pub open spec fn line_seq(runs: Seq<usize>) -> Seq<int> {
    line_seq_from(runs, 1)
}

/// Runs of length zero: placeholders for source lines no instruction came
/// from.
pub open spec fn zero_runs(n: nat) -> Seq<usize> {
    Seq::new(n, |i: int| 0usize)
}

/// The line a write files its instruction under: the written line itself
/// once it is past the table's newest line; a write at or before the
/// newest line counts as the newest line (lines never go backward), and an
/// empty table starts at line one.
pub open spec fn recorded_line(runs: Seq<usize>, line: int) -> int {
    if line > runs.len() {
        line
    } else if runs.len() > 0 {
        runs.len() as int
    } else {
        1
    }
}

/// What one write does to the line table: skipped lines get empty runs so
/// the numbering stays aligned, a fresh line opens a run of one, and a
/// write on the newest line lengthens its run.
pub open spec fn encode_spec(runs: Seq<usize>, line: int) -> Seq<usize> {
    if line > runs.len() {
        runs + zero_runs((line - runs.len() - 1) as nat) + seq![1usize]
    } else if runs.len() > 0 {
        runs.update(runs.len() - 1, (runs.last() + 1) as usize)
    } else {
        seq![1usize]
    }
}

/// Validity of one instruction's operand at position `at` in a chunk with
/// `n_consts` constants and `n_code` instructions.
pub open spec fn op_wf(op: OpCode, n_consts: int, n_code: int, at: int) -> bool {
    match op {
        OpCode::OP_CONSTANT(i) => (i as int) < n_consts,
        OpCode::OP_DEFINE_GLOBAL(i) => (i as int) < n_consts,
        OpCode::OP_GET_GLOBAL(i) => (i as int) < n_consts,
        OpCode::OP_SET_GLOBAL(i) => (i as int) < n_consts,
        OpCode::OP_JUMP(off) => at + 1 + off <= n_code,
        OpCode::OP_JUMP_IF_FALSE(off) => at + 1 + off <= n_code,
        OpCode::OP_LOOP(off) => (off as int) <= at,
        _ => true,
    }
}

pub open spec fn code_wf(code: Seq<OpCode>, n_consts: int) -> bool {
    forall|i: int|
        0 <= i < code.len() ==> op_wf(#[trigger] code[i], n_consts, code.len() as int, i)
}

pub proof fn lemma_sum_runs_nonneg(runs: Seq<usize>)
    ensures
        sum_runs(runs) >= 0,
    decreases runs.len(),
{
    if runs.len() > 0 {
        lemma_sum_runs_nonneg(runs.drop_first());
    }
}

pub proof fn lemma_sum_runs_push(runs: Seq<usize>, v: usize)
    ensures
        sum_runs(runs.push(v)) == sum_runs(runs) + v,
    decreases runs.len(),
{
    reveal_with_fuel(sum_runs, 3);
    if runs.len() == 0 {
        assert(runs.push(v).drop_first() =~= Seq::<usize>::empty());
    } else {
        assert(runs.push(v).drop_first() =~= runs.drop_first().push(v));
        lemma_sum_runs_push(runs.drop_first(), v);
    }
}

pub proof fn lemma_sum_runs_update_last(runs: Seq<usize>, v: usize)
    requires
        runs.len() > 0,
    ensures
        sum_runs(runs.update(runs.len() - 1, v)) == sum_runs(runs) - runs.last() + v,
    decreases runs.len(),
{
    reveal_with_fuel(sum_runs, 3);
    if runs.len() == 1 {
        assert(runs.update(0, v).drop_first() =~= Seq::<usize>::empty());
    } else {
        assert(runs.update(runs.len() - 1, v).drop_first() =~= runs.drop_first().update(
            runs.drop_first().len() - 1,
            v,
        ));
        lemma_sum_runs_update_last(runs.drop_first(), v);
    }
}

/// The last run's length never exceeds the table's total.
pub proof fn lemma_sum_runs_last(runs: Seq<usize>)
    requires
        runs.len() > 0,
    ensures
        runs.last() <= sum_runs(runs),
    decreases runs.len(),
{
    reveal_with_fuel(sum_runs, 3);
    if runs.len() == 1 {
    } else {
        lemma_sum_runs_last(runs.drop_first());
    }
}

pub proof fn lemma_line_seq_push(runs: Seq<usize>, v: usize, base: int)
    ensures
        line_seq_from(runs.push(v), base) == line_seq_from(runs, base) + repeat_line(
            base + runs.len(),
            v as nat,
        ),
    decreases runs.len(),
{
    if runs.len() == 0 {
        reveal_with_fuel(line_seq_from, 3);
        assert(runs.push(v).drop_first() =~= Seq::<usize>::empty());
        assert(runs.push(v).first() == v);
        assert(line_seq_from(runs.push(v), base) =~= line_seq_from(runs, base) + repeat_line(
            base + runs.len(),
            v as nat,
        ));
    } else {
        assert(runs.push(v).drop_first() =~= runs.drop_first().push(v));
        lemma_line_seq_push(runs.drop_first(), v, base + 1);
        assert(line_seq_from(runs.push(v), base) =~= line_seq_from(runs, base) + repeat_line(
            base + runs.len(),
            v as nat,
        ));
    }
}

pub proof fn lemma_line_seq_update_last(runs: Seq<usize>, base: int)
    requires
        runs.len() > 0,
        runs.last() < usize::MAX,
    ensures
        line_seq_from(runs.update(runs.len() - 1, (runs.last() + 1) as usize), base)
            == line_seq_from(runs, base).push(base + runs.len() - 1),
    decreases runs.len(),
{
    let upd = runs.update(runs.len() - 1, (runs.last() + 1) as usize);
    if runs.len() == 1 {
        reveal_with_fuel(line_seq_from, 3);
        assert(upd.drop_first() =~= Seq::<usize>::empty());
        assert(repeat_line(base, (runs.last() + 1) as nat) =~= repeat_line(
            base,
            runs.last() as nat,
        ).push(base));
        assert(line_seq_from(upd, base) =~= line_seq_from(runs, base).push(base + runs.len() - 1));
    } else {
        assert(upd.drop_first() =~= runs.drop_first().update(runs.drop_first().len() - 1, (
        runs.last() + 1) as usize));
        lemma_line_seq_update_last(runs.drop_first(), base + 1);
        assert(line_seq_from(upd, base) =~= line_seq_from(runs, base).push(base + runs.len() - 1));
    }
}

pub proof fn lemma_line_seq_len(runs: Seq<usize>, base: int)
    ensures
        line_seq_from(runs, base).len() == sum_runs(runs),
    decreases runs.len(),
{
    lemma_sum_runs_nonneg(runs);
    if runs.len() > 0 {
        lemma_sum_runs_nonneg(runs.drop_first());
        lemma_line_seq_len(runs.drop_first(), base + 1);
    }
}

proof fn lemma_line_of_line_seq_from(runs: Seq<usize>, base: int, offset: int)
    requires
        0 <= offset < sum_runs(runs),
    ensures
        line_seq_from(runs, base)[offset] == base - 1 + line_of(runs, offset),
    decreases runs.len(),
{
    lemma_line_seq_len(runs, base);
    if runs.len() == 0 {
    } else if offset < runs.first() {
    } else {
        lemma_sum_runs_nonneg(runs.drop_first());
        lemma_line_seq_len(runs.drop_first(), base + 1);
        lemma_line_of_line_seq_from(runs.drop_first(), base + 1, offset - runs.first());
    }
}

/// Law: the run-length line table is lossless. For every instruction offset
/// the table accounts for, decoding the offset's line recovers exactly the
/// line that the table records for that instruction.
pub proof fn lemma_line_table_round_trip(runs: Seq<usize>, offset: int)
    requires
        0 <= offset < sum_runs(runs),
    ensures
        line_seq(runs).len() == sum_runs(runs),
        line_of(runs, offset) == line_seq(runs)[offset],
{
    lemma_line_seq_len(runs, 1);
    lemma_line_of_line_seq_from(runs, 1, offset);
}

/// A compiled unit: instructions, the constant pool they index, and the
/// run-length table mapping instructions back to source lines.
pub struct Chunk {
    pub code: Vec<OpCode>,
    pub constants: Vec<Value>,
    pub lines: Vec<usize>,
}

impl Chunk {
    /// The line table accounts for exactly the instructions present.
    pub open spec fn lines_wf(&self) -> bool {
        sum_runs(self.lines@) == self.code@.len()
    }

    /// Every operand of every instruction is in bounds.
    pub open spec fn wf(&self) -> bool {
        &&& self.lines_wf()
        &&& code_wf(self.code@, self.constants@.len() as int)
    }

    /// Adds an instruction and records its source line in the line table.
    pub fn write_chunk(&mut self, op: OpCode, line: usize)
        requires
            old(self).lines_wf(),

        ensures
            final(self).code@ == old(self).code@.push(op),
            final(self).constants == old(self).constants,
            final(self).lines@ == encode_spec(old(self).lines@, line as int),
            final(self).lines_wf(),
            line_seq(final(self).lines@) == line_seq(old(self).lines@).push(
                recorded_line(old(self).lines@, line as int),
            ),
    {
        self.code.push(op);
        let n = self.code.len();
        proof {
            assert(sum_runs(self.lines@) == n - 1);
        }
        encode(self, line);
    }

    /// Appends a constant to the pool and returns its index for later
    /// embedding in an instruction operand.
    pub fn add_constant(&mut self, constant: Value) -> (index: usize)
        ensures
            final(self).constants@ == old(self).constants@.push(constant),
            final(self).code == old(self).code,
            final(self).lines == old(self).lines,
            index as int == old(self).constants@.len(),
    {
        self.constants.push(constant);
        let index = self.constants.len() - 1;
        return index;
    }
}

impl Default for Chunk {
    fn default() -> (c: Self)
        ensures
            c.code@.len() == 0,
            c.constants@.len() == 0,
            c.lines@.len() == 0,
            c.wf(),
    {
        Chunk { code: Vec::new(), constants: Vec::new(), lines: Vec::new() }
    }
}

/// Extends the table for one new instruction: empty runs for any skipped
/// lines, then the recorded line's run lengthened or opened.
fn encode(chunk: &mut Chunk, curr_line: usize)
    requires
        sum_runs(old(chunk).lines@) < old(chunk).code@.len(),
        sum_runs(old(chunk).lines@) < usize::MAX,
    ensures
        final(chunk).code == old(chunk).code,
        final(chunk).constants == old(chunk).constants,
        final(chunk).lines@ == encode_spec(old(chunk).lines@, curr_line as int),
        sum_runs(final(chunk).lines@) == sum_runs(old(chunk).lines@) + 1,
        line_seq(final(chunk).lines@) == line_seq(old(chunk).lines@).push(
            recorded_line(old(chunk).lines@, curr_line as int),
        ),
{
    let ghost runs0 = chunk.lines@;
    let line_count = chunk.lines.len();
    if curr_line > line_count {
        // Empty runs stand in for the skipped lines.
        let skipped = curr_line - line_count - 1;
        let mut j: usize = 0;
        while j < skipped
            invariant
                j <= skipped,
                skipped == curr_line - runs0.len() - 1,
                chunk.lines@ == runs0 + zero_runs(j as nat),
                chunk.code == old(chunk).code,
                chunk.constants == old(chunk).constants,
                sum_runs(chunk.lines@) == sum_runs(runs0),
                line_seq(chunk.lines@) == line_seq(runs0),
            decreases skipped - j,
        {
            proof {
                lemma_sum_runs_push(chunk.lines@, 0);
                lemma_line_seq_push(chunk.lines@, 0, 1);
                assert(repeat_line(1 + chunk.lines@.len() as int, 0nat) =~= Seq::<int>::empty());
                assert(line_seq(chunk.lines@) + repeat_line(1 + chunk.lines@.len() as int, 0nat)
                    =~= line_seq(chunk.lines@));
                assert((runs0 + zero_runs(j as nat)).push(0) =~= runs0 + zero_runs(
                    (j + 1) as nat,
                ));
            }
            chunk.lines.push(0);
            j = j + 1;
        }
        proof {
            lemma_sum_runs_push(chunk.lines@, 1);
            lemma_line_seq_push(chunk.lines@, 1, 1);
            assert(repeat_line(1 + chunk.lines@.len() as int, 1nat) =~= Seq::<int>::empty().push(
                curr_line as int,
            ));
            assert(line_seq(chunk.lines@) + repeat_line(1 + chunk.lines@.len() as int, 1nat)
                =~= line_seq(chunk.lines@).push(curr_line as int));
            assert((runs0 + zero_runs(skipped as nat)).push(1) =~= encode_spec(
                runs0,
                curr_line as int,
            ));
        }
        chunk.lines.push(1);
    } else if line_count > 0 {
        proof {
            lemma_sum_runs_last(chunk.lines@);
            lemma_sum_runs_nonneg(chunk.lines@);
            lemma_sum_runs_update_last(chunk.lines@, (chunk.lines@.last() + 1) as usize);
            lemma_line_seq_update_last(chunk.lines@, 1);
        }
        let last = chunk.lines[line_count - 1];
        chunk.lines[line_count - 1] = last + 1;
    } else {
        proof {
            lemma_sum_runs_push(chunk.lines@, 1);
            lemma_line_seq_push(chunk.lines@, 1, 1);
            assert(repeat_line(1, 1nat) =~= Seq::<int>::empty().push(1int));
            assert(line_seq(chunk.lines@) + repeat_line(1, 1nat) =~= line_seq(
                chunk.lines@,
            ).push(1int));
            assert(runs0.push(1) =~= encode_spec(runs0, curr_line as int));
        }
        chunk.lines.push(1);
    }
}

/// Decodes the line table: the 1-based line of the instruction at `offset`,
/// clamped to the last line for offsets past the table.
fn line_at(lines: &Vec<usize>, offset: usize) -> (r: usize)
    requires
        sum_runs(lines@) <= usize::MAX,
    ensures
        r as int == line_of(lines@, offset as int),
{
    let n = lines.len();
    let mut i: usize = 0;
    let mut sum: usize = 0;
    proof {
        assert(lines@.skip(0) =~= lines@);
        assert(lines@.subrange(0, 0) =~= Seq::<usize>::empty());
    }
    while i < n
        invariant
            i <= n,
            n == lines@.len(),
            sum_runs(lines@) <= usize::MAX,
            sum as int == sum_runs(lines@.subrange(0, i as int)),
            offset as int >= sum as int,
            line_of(lines@, offset as int) == i + line_of(
                lines@.skip(i as int),
                offset as int - sum as int,
            ),
        decreases n - i,
    {
        proof {
            lemma_sum_prefix_step(lines@, i as int);
            lemma_sum_prefix_bound(lines@, i as int + 1);
            assert(lines@.skip(i as int).first() == lines@[i as int]);
            assert(lines@.skip(i as int).drop_first() =~= lines@.skip(i as int + 1));
        }
        let run = lines[i];
        if offset < sum + run {
            return i + 1;
        }
        sum = sum + run;
        i = i + 1;
    }
    proof {
        assert(lines@.skip(n as int) =~= Seq::<usize>::empty());
    }
    return n;
}

proof fn lemma_sum_prefix_step(runs: Seq<usize>, i: int)
    requires
        0 <= i < runs.len(),
    ensures
        sum_runs(runs.subrange(0, i + 1)) == sum_runs(runs.subrange(0, i)) + runs[i],
{
    assert(runs.subrange(0, i + 1) =~= runs.subrange(0, i).push(runs[i]));
    lemma_sum_runs_push(runs.subrange(0, i), runs[i]);
}

proof fn lemma_sum_prefix_bound(runs: Seq<usize>, i: int)
    requires
        0 <= i <= runs.len(),
    ensures
        sum_runs(runs.subrange(0, i)) <= sum_runs(runs),
    decreases runs.len() - i,
{
    if i == runs.len() {
        assert(runs.subrange(0, i) =~= runs);
    } else {
        lemma_sum_prefix_step(runs, i);
        lemma_sum_prefix_bound(runs, i + 1);
    }
}

/// Answers which source line produced the instruction at `offset`: the
/// decoded line number as text, or the word "same" when the previous
/// offset already came from that line.
pub fn get_line(offset: usize, lines: &Vec<usize>) -> (r: String)
    requires
        sum_runs(lines@) <= usize::MAX,
    ensures
        offset == 0 ==> r@ == dec_digits(line_of(lines@, 0) as nat),
        offset > 0 && line_of(lines@, offset as int) == line_of(lines@, offset as int - 1) ==> r@
            == "same"@,
        offset > 0 && line_of(lines@, offset as int) != line_of(lines@, offset as int - 1) ==> r@
            == dec_digits(line_of(lines@, offset as int) as nat),
{
    proof {
        lemma_line_of_nonneg(lines@, offset as int);
    }
    let current = line_at(lines, offset);
    if offset == 0 {
        return u64_to_string(current as u64);
    }
    let before = line_at(lines, offset - 1);
    if before == current {
        "same".to_owned()
    } else {
        u64_to_string(current as u64)
    }
}

proof fn lemma_line_of_nonneg(runs: Seq<usize>, offset: int)
    ensures
        line_of(runs, offset) >= 0,
    decreases runs.len(),
{
    if runs.len() > 0 && offset >= runs.first() {
        lemma_line_of_nonneg(runs.drop_first(), offset - runs.first());
    }
}

} // verus!
