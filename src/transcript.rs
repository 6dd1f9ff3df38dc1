use vstd::prelude::*;
use crate::instruction::{Instruction, InstructionView};
use crate::task::{fits, is_phi, slice_of, Task};
use crate::gir::{all_fit, covered, gather, laid_out, lemma_gather_len, Annotation, GIR};
use crate::fasta::{lookup, FastaFile};
use crate::text::chars_of;
use crate::instruction::lower;
use crate::mutation::Mutation;
use crate::vcf::{sort_by_ref, AltTranscript};

verus! {

/// The instructions of a sequence, as values.
pub open spec fn views(v: Seq<Instruction>) -> Seq<InstructionView> {
    Seq::new(v.len(), |i: int| v[i]@)
}

/// Whether one instruction drops the whole transcript (start lost).
pub open spec fn has_start_lost(iv: Seq<InstructionView>) -> bool {
    exists|i: int| 0 <= i < iv.len() && (#[trigger] iv[i].code == '0' || iv[i].code == 'U')
}

/// Whether an instruction before `i` is a stop gain or a frameshift.
pub open spec fn prior_truncation(iv: Seq<InstructionView>, i: int) -> bool {
    exists|j: int| 0 <= j < i && (#[trigger] iv[j].code == 'G' || iv[j].code == 'F')
}

/// How much instruction `i` changes the length of a reference of length `l`.
pub open spec fn size_delta(iv: Seq<InstructionView>, i: int, l: int) -> Option<int> {
    delta_of(iv[i], prior_truncation(iv, i), l)
}

/// How much `x` changes the length; `gf` tells whether a stop gain or a
/// frameshift came before it, which voids the `*`-forms.
pub open spec fn delta_of(x: InstructionView, gf: bool, l: int) -> Option<int> {
    let c = x.code;
    let n = x.data.len() as int;
    let tail = l - x.pos_ref;
    if c == 'M' || c == 'N' || c == '2' || c == 'Z' { Some(0) }
    else if c == 'I' { Some(n - 1) }
    else if c == 'J' { Some(if gf { 0 } else { n - 1 }) }
    else if c == 'D' || c == 'P' { Some(-x.len) }
    else if c == 'C' { Some(if gf { 0 } else { -x.len }) }
    else if c == 'F' { Some(n - tail) }
    else if c == 'R' || c == 'K' || c == 'Q' { Some(if gf { 0 } else { n - tail }) }
    else if c == 'G' || c == 'X' || c == 'T' { Some(-tail) }
    else if c == 'A' { Some(if gf { 0 } else { -tail }) }
    else if c == 'L' { Some(if x.pos_ref + 1 == l { n } else { n - tail }) }
    else if c == 'B' { Some(-(tail - x.len)) }
    else if c == 'W' { Some(n) }
    else if c == 'Y' { Some(n - tail + 1) }
    else if c == '3' { Some(n - x.len) }
    else { None }
}

/// The sum of the first `k` length changes; `None` when an opcode is unknown.
pub open spec fn delta_sum(iv: Seq<InstructionView>, l: int, k: int) -> Option<int>
    decreases k,
{
    if k <= 0 {
        Some(0)
    } else {
        match (delta_sum(iv, l, k - 1), size_delta(iv, k - 1, l)) {
            (Some(a), Some(b)) => Some(a + b),
            _ => None,
        }
    }
}

/// The length of the edited transcript, predicted from the instructions alone.
pub open spec fn predicted_len(iv: Seq<InstructionView>, l: int) -> Option<int> {
    if has_start_lost(iv) {
        Some(0)
    } else {
        match delta_sum(iv, l, iv.len() as int) {
            Some(d) => Some(l + d),
            None => None,
        }
    }
}

/// The number of leading reference residues copied before the first edit.
/// `Z` and `Y` keep the residue at their position. A stop loss at the last
/// residue (`pos_ref + 1 == l`) keeps that residue; one placed past the end
/// (`pos_ref == l`, the stop itself) copies the whole reference; elsewhere it
/// copies up to its result position.
pub open spec fn base_len(first: InstructionView, l: int) -> int {
    if first.code == 'Z' || first.code == 'Y' {
        first.pos_ref + 1
    } else if first.code == 'L' {
        if first.pos_ref + 1 == l { first.pos_ref + 1 } else if first.pos_ref == l { first.pos_ref } else { first.pos_res }
    } else {
        first.pos_ref
    }
}

/// How many of its residues an instruction writes; `None` for an unknown opcode.
pub open spec fn edit_len(x: InstructionView) -> Option<int> {
    let c = x.code;
    if c == 'M' || c == 'N' { Some(1) }
    else if c == 'F' || c == 'R' || c == 'K' || c == 'B' || c == 'Y' || c == 'Q' || c == 'I' || c == 'J' || c == '2' { Some(x.len) }
    else if c == 'L' || c == 'W' || c == 'D' || c == 'C' || c == '3' { Some(x.data.len() as int) }
    else if c == 'G' || c == 'X' || c == 'A' || c == 'T' || c == 'Z' || c == 'P' { Some(0) }
    else { None }
}

/// The residues an instruction writes, when it carries that many.
pub open spec fn edit_content(x: InstructionView) -> Option<Seq<char>> {
    match edit_len(x) {
        Some(e) => if 0 <= e <= x.data.len() { Some(x.data.subrange(0, e)) } else { None },
        None => None,
    }
}

/// Opcodes after which nothing more of the reference is copied.
pub open spec fn ends_copy(c: char) -> bool {
    c == 'K' || c == 'Y' || c == 'Q' || c == 'A' || c == 'B' || c == 'P' || c == 'Z' || c == 'T' || c == 'W'
        || c == 'G' || c == 'F' || c == 'R' || c == 'L' || c == 'X'
}

/// Opcodes that must be the last instruction of a transcript.
pub open spec fn must_be_last(c: char) -> bool {
    c == 'K' || c == 'Q' || c == 'A' || c == 'B' || c == 'P' || c == 'Z' || c == 'T' || c == 'W' || c == 'G'
        || c == 'F' || c == 'R' || c == 'L'
}

/// A copy of `n` reference residues from `s`, if it lies inside a reference of length `l`.
pub open spec fn ref_copy(s: int, n: int, l: int) -> Option<Option<(int, int)>> {
    if 0 <= s && 0 <= n && s + n <= l { Some(Some((s, n))) } else { None }
}

/// The reference copy that bridges instruction `x` to the next one, `next`:
/// `Some(None)` when nothing is copied, `None` when the two cannot follow each other.
pub open spec fn bridge(x: InstructionView, next: InstructionView, l: int) -> Option<Option<(int, int)>> {
    let c = x.code;
    if must_be_last(c) {
        None
    } else if next.pos_ref == x.pos_ref {
        Some(None)
    } else if c == 'D' || c == 'C' {
        if x.pos_ref + x.len == next.pos_ref {
            Some(None)
        } else if next.code == 'L' && next.pos_ref + 1 == l && x.pos_ref + x.len + 1 == next.pos_ref {
            ref_copy(x.pos_ref + x.len + 1, 1, l)
        } else {
            ref_copy(x.pos_ref + x.len + 1, next.pos_ref - (x.pos_ref + x.len + 1), l)
        }
    } else if c == '2' || c == '3' {
        if x.pos_ref + x.len == next.pos_ref {
            Some(None)
        } else {
            ref_copy(x.pos_ref + x.len, next.pos_ref - (x.pos_ref + x.len), l)
        }
    } else if next.code == 'L' && next.pos_ref + 1 == l {
        ref_copy(x.pos_ref + 1, next.pos_ref - x.pos_ref, l)
    } else {
        ref_copy(x.pos_ref + 1, next.pos_ref - 1 - x.pos_ref, l)
    }
}

/// The reference copy after the last instruction, up to the end of the reference.
pub open spec fn terminal(x: InstructionView, l: int) -> Option<Option<(int, int)>> {
    let c = x.code;
    if ends_copy(c) {
        Some(None)
    } else if c == 'D' || c == 'C' {
        ref_copy(x.pos_ref + x.len + 1, l - (x.pos_ref + x.len + 1), l)
    } else if c == '2' || c == '3' {
        ref_copy(x.pos_ref + x.len, l - (x.pos_ref + x.len), l)
    } else {
        ref_copy(x.pos_ref + 1, l - x.pos_ref - 1, l)
    }
}

/// The copy that follows instruction `i`.
pub open spec fn follow(iv: Seq<InstructionView>, i: int, l: int) -> Option<Option<(int, int)>> {
    if i + 1 < iv.len() { bridge(iv[i], iv[i + 1], l) } else { terminal(iv[i], l) }
}

pub open spec fn ref_piece(r: Seq<char>, c: Option<(int, int)>) -> Seq<char> {
    match c {
        Some((s, n)) => r.subrange(s, s + n),
        None => Seq::empty(),
    }
}

/// What instruction `i` contributes: its residues, then the reference copy after it.
pub open spec fn piece(iv: Seq<InstructionView>, i: int, r: Seq<char>) -> Option<Seq<char>> {
    match (edit_content(iv[i]), follow(iv, i, r.len() as int)) {
        (Some(e), Some(f)) => Some(e + ref_piece(r, f)),
        _ => None,
    }
}

/// The reference head followed by the pieces of the first `k` instructions.
pub open spec fn assembled(iv: Seq<InstructionView>, r: Seq<char>, k: int) -> Option<Seq<char>>
    decreases k,
{
    if k <= 0 {
        let b = base_len(iv[0], r.len() as int);
        if 0 <= b <= r.len() { Some(r.subrange(0, b)) } else { None }
    } else {
        match (assembled(iv, r, k - 1), piece(iv, k - 1, r)) {
            (Some(a), Some(p)) => Some(a + p),
            _ => None,
        }
    }
}

/// The transcript `r` edited by the instructions: empty when there are none or
/// when the start is lost; `None` when the instructions cannot be applied.
pub open spec fn edited(iv: Seq<InstructionView>, r: Seq<char>) -> Option<Seq<char>> {
    if iv.len() == 0 || has_start_lost(iv) { Some(Seq::empty()) } else { assembled(iv, r, iv.len() as int) }
}

/// The characters the instructions place in the alternative arena.
pub open spec fn alt_total(iv: Seq<InstructionView>, k: int) -> int
    decreases k,
{
    if k <= 0 { 0 } else { alt_total(iv, k - 1) + iv[k - 1].data.len() }
}

/// The mutations of one transcript, lowered to instructions in reference order,
/// with the length of the reference protein.
#[derive(Debug, Clone)]
pub struct TranscriptInstruction {
    pub transcript_name: String,
    pub ref_len: usize,
    pub instructions: Vec<Instruction>,
}


/// The exact value of an optional reference copy.
pub open spec fn range_view(r: Option<Option<(usize, usize)>>) -> Option<Option<(int, int)>> {
    match r {
        None => None,
        Some(None) => Some(None),
        Some(Some((a, b))) => Some(Some((a as int, b as int))),
    }
}

/// A predicted length, when a `usize` can hold it.
pub open spec fn as_size(p: Option<int>) -> Option<usize> {
    match p {
        Some(v) => if 0 <= v <= usize::MAX { Some(v as usize) } else { None },
        None => None,
    }
}

proof fn lemma_push_task(ts: Seq<Task>, t: Task, ref_s: Seq<char>, alt_s: Seq<char>)
    requires
        laid_out(ts),
        !is_phi(t),
        t.start_pos_res == covered(ts),
    ensures
        laid_out(ts.push(t)),
        covered(ts.push(t)) == covered(ts) + t.length,
        gather(ts.push(t), ref_s, alt_s) == gather(ts, ref_s, alt_s) + slice_of(t, ref_s, alt_s),
{
    let ts2 = ts.push(t);
    assert(ts2.drop_last() =~= ts);
    assert forall|i: int| 0 <= i < ts2.len() && !is_phi(#[trigger] ts2[i]) implies
        ts2[i].start_pos_res == covered(ts2.take(i)) by {
        if i < ts.len() {
            assert(ts2.take(i) =~= ts.take(i));
            assert(ts2[i] == ts[i]);
        } else {
            assert(ts2.take(i) =~= ts);
        }
    }
}

proof fn lemma_gather_alt_extend(ts: Seq<Task>, ref_s: Seq<char>, alt_s: Seq<char>, d: Seq<char>, res_len: int)
    requires
        all_fit(ts, ref_s.len() as int, alt_s.len() as int, res_len),
    ensures
        gather(ts, ref_s, alt_s + d) == gather(ts, ref_s, alt_s),
    decreases ts.len(),
{
    if ts.len() > 0 {
        let pre = ts.drop_last();
        assert forall|i: int| 0 <= i < pre.len() implies
            fits(#[trigger] pre[i], ref_s.len() as int, alt_s.len() as int, res_len) by {
            assert(pre[i] == ts[i]);
        }
        lemma_gather_alt_extend(pre, ref_s, alt_s, d, res_len);
        let t = ts.last();
        assert(fits(ts[ts.len() - 1], ref_s.len() as int, alt_s.len() as int, res_len));
        if !is_phi(t) && t.exe_code != 0 {
            assert((alt_s + d).subrange(t.start_pos as int, t.start_pos + t.length)
                =~= alt_s.subrange(t.start_pos as int, t.start_pos + t.length));
        }
    }
}

proof fn lemma_all_fit_grow(ts: Seq<Task>, l: int, a1: int, r1: int, a2: int, r2: int)
    requires
        all_fit(ts, l, a1, r1),
        a1 <= a2,
        r1 <= r2,
    ensures
        all_fit(ts, l, a2, r2),
{
    assert forall|i: int| 0 <= i < ts.len() implies fits(#[trigger] ts[i], l, a2, r2) by {
        assert(fits(ts[i], l, a1, r1));
    }
}

/// A reference copy of `n` residues from `s`, checked against the reference length.
fn ref_copy_exec(s: i128, n: i128, l: usize) -> (r: Option<Option<(usize, usize)>>)
    ensures
        range_view(r) == ref_copy(s as int, n as int, l as int),
{
    if 0 <= s && 0 <= n && n <= l as i128 - s {
        Some(Some((s as usize, n as usize)))
    } else {
        None
    }
}

impl TranscriptInstruction {
    pub fn new(transcript_name: String, ref_len: usize, instructions: Vec<Instruction>) -> (r: Self)
        ensures
            r.transcript_name == transcript_name && r.ref_len == ref_len && r.instructions == instructions,
    {
        TranscriptInstruction { transcript_name, ref_len, instructions }
    }

    /// A transcript with no name and no instruction.
    pub fn empty_t_instruction() -> (r: Self)
        ensures
            r.transcript_name@.len() == 0,
            r.ref_len == 1,
            r.instructions@.len() == 0,
    {
        TranscriptInstruction { transcript_name: String::new(), ref_len: 1, instructions: Vec::new() }
    }

    pub fn get_num_instructions(&self) -> (r: usize)
        ensures r == self.instructions@.len(),
    {
        self.instructions.len()
    }

    pub fn get_transcript_name(&self) -> (r: &String)
        ensures r == &self.transcript_name,
    {
        &self.transcript_name
    }

    /// The characters all instructions carry (saturated at `usize::MAX`).
    pub fn compute_alt_stream_size(&self) -> (r: usize)
        ensures
            r == if alt_total(views(self.instructions@), self.instructions@.len() as int) <= usize::MAX {
                alt_total(views(self.instructions@), self.instructions@.len() as int)
            } else {
                usize::MAX as int
            },
    {
        let n = self.instructions.len();
        let ghost iv = views(self.instructions@);
        let mut total: usize = 0;
        let mut saturated = false;
        let mut i: usize = 0;
        while i < n
            invariant
                n == self.instructions@.len(),
                iv == views(self.instructions@),
                i <= n,
                saturated ==> alt_total(iv, i as int) > usize::MAX && total == usize::MAX,
                !saturated ==> total == alt_total(iv, i as int),
            decreases n - i,
        {
            let k = self.instructions[i].data.len();
            assert(iv[i as int].data.len() == k);
            if !saturated {
                if total > usize::MAX - k {
                    saturated = true;
                    total = usize::MAX;
                } else {
                    total = total + k;
                }
            }
            i = i + 1;
        }
        total
    }

    /// The length of the edited transcript, computed from the instructions alone
    /// (no edit is performed); `None` when an opcode is unknown or the length
    /// is negative or does not fit a `usize`.
    pub fn compute_expected_results_array_size(&self) -> (r: Option<usize>)
        ensures
            self.instructions@.len() <= 0x0800_0000_0000_0000 ==>
                r == as_size(predicted_len(views(self.instructions@), self.ref_len as int)),
            r is Some ==> predicted_len(views(self.instructions@), self.ref_len as int) == Some(r->0 as int),
            r is Some && !has_start_lost(views(self.instructions@)) ==>
                self.instructions@.len() <= 0x0800_0000_0000_0000,
    {
        let n = self.instructions.len();
        let ghost iv = views(self.instructions@);
        let l = self.ref_len;
        let mut j: usize = 0;
        while j < n
            invariant
                n == self.instructions@.len(),
                iv == views(self.instructions@),
                j <= n,
                forall|k: int| 0 <= k < j ==> !(#[trigger] iv[k].code == '0' || iv[k].code == 'U'),
            decreases n - j,
        {
            let c = self.instructions[j].code;
            if c == '0' || c == 'U' {
                assert(iv[j as int].code == c);
                return Some(0);
            }
            j = j + 1;
        }
        assert(!has_start_lost(iv));
        if n as u64 > 0x0800_0000_0000_0000u64 {
            return None;
        }
        let mut sum: i128 = 0;
        let mut seen = false;
        let mut i: usize = 0;
        while i < n
            invariant
                n == self.instructions@.len(),
                n <= 0x0800_0000_0000_0000,
                iv == views(self.instructions@),
                l == self.ref_len,
                i <= n,
                delta_sum(iv, l as int, i as int) == Some(sum as int),
                -(i as int) * 0x4_0000_0000_0000_0000 <= sum <= (i as int) * 0x4_0000_0000_0000_0000,
                seen == prior_truncation(iv, i as int),
                !has_start_lost(iv),
            decreases n - i,
        {
            let x = &self.instructions[i];
            assert(iv[i as int] == x@);
            let d = match TranscriptInstruction::delta_exec(x, seen, l) {
                Some(d) => d,
                None => {
                    assert(delta_sum(iv, l as int, n as int) is None) by {
                        lemma_delta_sum_none(iv, l as int, i as int, n as int);
                    }
                    return None;
                },
            };
            sum = sum + d;
            if x.code == 'G' || x.code == 'F' {
                seen = true;
            }
            proof {
                if x.code == 'G' || x.code == 'F' {
                    assert(prior_truncation(iv, i as int + 1));
                } else {
                    assert(prior_truncation(iv, i as int + 1) == prior_truncation(iv, i as int)) by {
                        if prior_truncation(iv, i as int + 1) {
                            let j = choose|j: int| 0 <= j < i + 1 && (#[trigger] iv[j].code == 'G' || iv[j].code == 'F');
                            assert(j < i);
                        }
                    }
                }
            }
            i = i + 1;
        }
        let total: i128 = l as i128 + sum;
        if 0 <= total && total <= usize::MAX as i128 {
            Some(total as usize)
        } else {
            None
        }
    }

    fn delta_exec(x: &Instruction, gf: bool, l: usize) -> (r: Option<i128>)
        ensures
            r matches Some(v) ==> delta_of(x@, gf, l as int) == Some(v as int),
            r is None ==> delta_of(x@, gf, l as int) is None,
            r matches Some(v) ==> -0x4_0000_0000_0000_0000 <= v <= 0x4_0000_0000_0000_0000,
    {
        let c = x.code;
        let n = x.data.len() as i128;
        let tail = l as i128 - x.pos_ref as i128;
        let len = x.len as i128;
        if c == 'M' || c == 'N' || c == '2' || c == 'Z' { Some(0) }
        else if c == 'I' { Some(n - 1) }
        else if c == 'J' { Some(if gf { 0 } else { n - 1 }) }
        else if c == 'D' || c == 'P' { Some(-len) }
        else if c == 'C' { Some(if gf { 0 } else { -len }) }
        else if c == 'F' { Some(n - tail) }
        else if c == 'R' || c == 'K' || c == 'Q' { Some(if gf { 0 } else { n - tail }) }
        else if c == 'G' || c == 'X' || c == 'T' { Some(-tail) }
        else if c == 'A' { Some(if gf { 0 } else { -tail }) }
        else if c == 'L' { Some(if x.pos_ref as i128 + 1 == l as i128 { n } else { n - tail }) }
        else if c == 'B' { Some(-(tail - len)) }
        else if c == 'W' { Some(n) }
        else if c == 'Y' { Some(n - tail + 1) }
        else if c == '3' { Some(n - len) }
        else { None }
    }
}

proof fn lemma_delta_sum_none(iv: Seq<InstructionView>, l: int, i: int, n: int)
    requires
        0 <= i < n,
        size_delta(iv, i, l) is None,
    ensures
        delta_sum(iv, l, n) is None,
    decreases n - i,
{
    if n > i + 1 {
        lemma_delta_sum_none(iv, l, i, n - 1);
    }
}

/// Where the next task writes, after the last one of `ts`.
pub open spec fn next_res(ts: Seq<Task>) -> int {
    if ts.len() == 0 { 0 } else { ts.last().start_pos_res + ts.last().length }
}

/// The copy that follows `x`: a bridge to `next`, or the copy to the end of the reference.
pub open spec fn follow_of(x: InstructionView, next: Option<InstructionView>, l: int) -> Option<Option<(int, int)>> {
    match next {
        Some(nx) => bridge(x, nx, l),
        None => terminal(x, l),
    }
}

pub open spec fn next_view(n: Option<&Instruction>) -> Option<InstructionView> {
    match n {
        Some(x) => Some(x@),
        None => None,
    }
}

pub open spec fn copy_len(f: Option<(int, int)>) -> int {
    match f {
        Some((_, n)) => n,
        None => 0,
    }
}

/// Appends all the residues of `ins` to the arena.
fn append_data(ins: &Instruction, alt_stream: &mut Vec<char>)
    ensures
        final(alt_stream)@ == old(alt_stream)@ + ins.data@,
{
    let mut i: usize = 0;
    while i < ins.data.len()
        invariant
            i <= ins.data@.len(),
            alt_stream@ == old(alt_stream)@ + ins.data@.subrange(0, i as int),
        decreases ins.data.len() - i,
    {
        alt_stream.push(ins.data[i]);
        i = i + 1;
        assert(alt_stream@ =~= old(alt_stream)@ + ins.data@.subrange(0, i as int));
    }
    assert(ins.data@.subrange(0, ins.data@.len() as int) =~= ins.data@);
}

/// Appends the residues of `ins` and returns the task that copies `len` of them
/// to result position `res`.
fn emit_alt(ins: &Instruction, alt_stream: &mut Vec<char>, len: usize, res: usize) -> (r: Task)
    ensures
        final(alt_stream)@ == old(alt_stream)@ + ins.data@,
        r.exe_code == 1 && r.start_pos as int == old(alt_stream)@.len() && r.length == len && r.start_pos_res == res,
{
    let start = alt_stream.len();
    append_data(ins, alt_stream);
    Task { exe_code: 1, start_pos: start, length: len, start_pos_res: res }
}

/// The result position right after the last task.
fn next_res_exec(vec_tasks: &Vec<Task>) -> (r: usize)
    requires
        next_res(vec_tasks@) <= usize::MAX,
    ensures
        r == next_res(vec_tasks@),
{
    if vec_tasks.len() == 0 {
        0
    } else {
        let t = vec_tasks[vec_tasks.len() - 1];
        t.start_pos_res + t.length
    }
}

impl TranscriptInstruction {
    /// The edit task of a missense (`M`, `N`): one residue from the arena.
    pub fn get_task_from_missense(instruction: &Instruction, alt_stream: &mut Vec<char>, vec_tasks: &Vec<Task>) -> (r: Task)
        requires
            next_res(vec_tasks@) <= usize::MAX,
        ensures
            final(alt_stream)@ == old(alt_stream)@ + instruction.data@,
            r == (Task { exe_code: 1, start_pos: old(alt_stream)@.len() as usize, length: 1,
                start_pos_res: next_res(vec_tasks@) as usize }),
    {
        let res = next_res_exec(vec_tasks);
        emit_alt(instruction, alt_stream, 1, res)
    }

    /// The edit task of a frameshift-like opcode: the instruction's length from the arena.
    pub fn get_task_from_frameshift(instruction: &Instruction, alt_stream: &mut Vec<char>, vec_tasks: &Vec<Task>) -> (r: Task)
        requires
            next_res(vec_tasks@) <= usize::MAX,
        ensures
            final(alt_stream)@ == old(alt_stream)@ + instruction.data@,
            r == (Task { exe_code: 1, start_pos: old(alt_stream)@.len() as usize, length: instruction.len,
                start_pos_res: next_res(vec_tasks@) as usize }),
    {
        let res = next_res_exec(vec_tasks);
        emit_alt(instruction, alt_stream, instruction.len, res)
    }

    /// A stop gain writes nothing: the empty task.
    pub fn get_task_from_stop_gained(_instruction: &Instruction, _alt_stream: &mut Vec<char>, _vec_tasks: &Vec<Task>) -> (r: Task)
        ensures
            r == (Task { exe_code: 2, start_pos: 0, length: 0, start_pos_res: 0 }),
            *final(_alt_stream) == *old(_alt_stream),
    {
        Task { exe_code: 2, start_pos: 0, length: 0, start_pos_res: 0 }
    }

    /// A `*`-form stop gain writes nothing: the empty task.
    pub fn get_task_from_s_stop_gained(_instruction: &Instruction, _alt_stream: &mut Vec<char>, _vec_tasks: &Vec<Task>) -> (r: Task)
        ensures
            r == (Task { exe_code: 2, start_pos: 0, length: 0, start_pos_res: 0 }),
            *final(_alt_stream) == *old(_alt_stream),
    {
        Task { exe_code: 2, start_pos: 0, length: 0, start_pos_res: 0 }
    }

    /// The edit task of a stop loss: all the residues it carries.
    pub fn get_task_from_stop_lost(instruction: &Instruction, alt_stream: &mut Vec<char>, vec_tasks: &Vec<Task>) -> (r: Task)
        requires
            next_res(vec_tasks@) <= usize::MAX,
        ensures
            final(alt_stream)@ == old(alt_stream)@ + instruction.data@,
            r == (Task { exe_code: 1, start_pos: old(alt_stream)@.len() as usize, length: instruction.data@.len() as usize,
                start_pos_res: next_res(vec_tasks@) as usize }),
    {
        let res = next_res_exec(vec_tasks);
        let n = instruction.data.len();
        emit_alt(instruction, alt_stream, n, res)
    }

    /// The edit task of an insertion: the instruction's length from the arena.
    pub fn get_task_from_inframe_insertion(instruction: &Instruction, alt_stream: &mut Vec<char>, vec_tasks: &Vec<Task>) -> (r: Task)
        requires
            next_res(vec_tasks@) <= usize::MAX,
        ensures
            final(alt_stream)@ == old(alt_stream)@ + instruction.data@,
            r == (Task { exe_code: 1, start_pos: old(alt_stream)@.len() as usize, length: instruction.len,
                start_pos_res: next_res(vec_tasks@) as usize }),
    {
        let res = next_res_exec(vec_tasks);
        emit_alt(instruction, alt_stream, instruction.len, res)
    }

    /// The edit task of a deletion: the residues that replace the deleted ones.
    pub fn get_task_from_inframe_deletion(instruction: &Instruction, alt_stream: &mut Vec<char>, vec_tasks: &Vec<Task>) -> (r: Task)
        requires
            next_res(vec_tasks@) <= usize::MAX,
        ensures
            final(alt_stream)@ == old(alt_stream)@ + instruction.data@,
            r == (Task { exe_code: 1, start_pos: old(alt_stream)@.len() as usize, length: instruction.data@.len() as usize,
                start_pos_res: next_res(vec_tasks@) as usize }),
    {
        let res = next_res_exec(vec_tasks);
        let n = instruction.data.len();
        emit_alt(instruction, alt_stream, n, res)
    }

    /// The edit task of an equal-length substitution (`2`).
    pub fn get_task_from_instruction_2(instruction: &Instruction, alt_stream: &mut Vec<char>, vec_tasks: &Vec<Task>) -> (r: Task)
        requires
            next_res(vec_tasks@) <= usize::MAX,
        ensures
            final(alt_stream)@ == old(alt_stream)@ + instruction.data@,
            r == (Task { exe_code: 1, start_pos: old(alt_stream)@.len() as usize, length: instruction.len,
                start_pos_res: next_res(vec_tasks@) as usize }),
    {
        let res = next_res_exec(vec_tasks);
        emit_alt(instruction, alt_stream, instruction.len, res)
    }

    /// The edit task of an unequal-length substitution (`3`).
    pub fn get_task_from_instruction_3(instruction: &Instruction, alt_stream: &mut Vec<char>, vec_tasks: &Vec<Task>) -> (r: Task)
        requires
            next_res(vec_tasks@) <= usize::MAX,
        ensures
            final(alt_stream)@ == old(alt_stream)@ + instruction.data@,
            r == (Task { exe_code: 1, start_pos: old(alt_stream)@.len() as usize, length: instruction.data@.len() as usize,
                start_pos_res: next_res(vec_tasks@) as usize }),
    {
        let res = next_res_exec(vec_tasks);
        let n = instruction.data.len();
        emit_alt(instruction, alt_stream, n, res)
    }

    /// How many residues `ins` writes, as in `edit_len`.
    fn edit_len_exec(ins: &Instruction) -> (r: Option<usize>)
        ensures
            r matches Some(e) ==> edit_len(ins@) == Some(e as int),
            r is None ==> edit_len(ins@) is None,
    {
        let c = ins.code;
        if c == 'M' || c == 'N' { Some(1) }
        else if c == 'F' || c == 'R' || c == 'K' || c == 'B' || c == 'Y' || c == 'Q' || c == 'I' || c == 'J' || c == '2' { Some(ins.len) }
        else if c == 'L' || c == 'W' || c == 'D' || c == 'C' || c == '3' { Some(ins.data.len()) }
        else if c == 'G' || c == 'X' || c == 'A' || c == 'T' || c == 'Z' || c == 'P' { Some(0) }
        else { None }
    }

    /// The reference copy that bridges `ins` to the next instruction.
    fn add_till_next_ins(ins: &Instruction, next_ins: &Instruction, ref_len: usize) -> (r: Option<Option<(usize, usize)>>)
        ensures
            range_view(r) == bridge(ins@, next_ins@, ref_len as int),
    {
        let c = ins.code;
        let p = ins.pos_ref as i128;
        let len = ins.len as i128;
        let q = next_ins.pos_ref as i128;
        let l = ref_len as i128;
        if c == 'K' || c == 'Q' || c == 'A' || c == 'B' || c == 'P' || c == 'Z' || c == 'T' || c == 'W' || c == 'G'
            || c == 'F' || c == 'R' || c == 'L' {
            None
        } else if q == p {
            Some(None)
        } else if c == 'D' || c == 'C' {
            if p + len == q {
                Some(None)
            } else if next_ins.code == 'L' && q + 1 == l && p + len + 1 == q {
                ref_copy_exec(p + len + 1, 1, ref_len)
            } else {
                ref_copy_exec(p + len + 1, q - (p + len + 1), ref_len)
            }
        } else if c == '2' || c == '3' {
            if p + len == q {
                Some(None)
            } else {
                ref_copy_exec(p + len, q - (p + len), ref_len)
            }
        } else if next_ins.code == 'L' && q + 1 == l {
            ref_copy_exec(p + 1, q - p, ref_len)
        } else {
            ref_copy_exec(p + 1, q - 1 - p, ref_len)
        }
    }

    /// The reference copy after the last instruction, up to the end of the reference.
    fn add_last_instruction(ref_len: usize, instruction: &Instruction) -> (r: Option<Option<(usize, usize)>>)
        ensures
            range_view(r) == terminal(instruction@, ref_len as int),
    {
        let c = instruction.code;
        let p = instruction.pos_ref as i128;
        let len = instruction.len as i128;
        let l = ref_len as i128;
        if c == 'K' || c == 'Y' || c == 'Q' || c == 'A' || c == 'B' || c == 'P' || c == 'Z' || c == 'T' || c == 'W'
            || c == 'G' || c == 'F' || c == 'R' || c == 'L' || c == 'X' {
            Some(None)
        } else if c == 'D' || c == 'C' {
            ref_copy_exec(p + len + 1, l - (p + len + 1), ref_len)
        } else if c == '2' || c == '3' {
            ref_copy_exec(p + len, l - (p + len), ref_len)
        } else {
            ref_copy_exec(p + 1, l - p - 1, ref_len)
        }
    }

    /// The task that copies the reference head, when it lies inside the reference.
    fn build_base_instruction(instruction: &Instruction, ref_len: usize) -> (r: Option<Task>)
        ensures
            r is Some <==> 0 <= base_len(instruction@, ref_len as int) <= ref_len,
            r matches Some(t) ==> t == (Task { exe_code: 0, start_pos: 0,
                length: base_len(instruction@, ref_len as int) as usize, start_pos_res: 0 }),
    {
        let c = instruction.code;
        let p = instruction.pos_ref;
        let b: usize = if c == 'Z' || c == 'Y' || (c == 'L' && p < ref_len && p + 1 == ref_len) {
            if p >= ref_len {
                return None;
            }
            p + 1
        } else if c == 'L' && p != ref_len {
            instruction.pos_res
        } else {
            p
        };
        if b > ref_len {
            return None;
        }
        Some(Task { exe_code: 0, start_pos: 0, length: b, start_pos_res: 0 })
    }

    /// The tasks of instruction `ins`: its edit task (none when it writes nothing)
    /// and the reference copy that follows it, placed from result position `res_end`.
    fn to_task(ins: &Instruction, next_ins: Option<&Instruction>, alt_stream: &mut Vec<char>, res_end: usize,
        ref_len: usize) -> (r: Option<(Option<Task>, Option<Task>)>)
        ensures
            r is Some ==> edit_content(ins@) is Some && follow_of(ins@, next_view(next_ins), ref_len as int) is Some,
            (edit_content(ins@) is Some && follow_of(ins@, next_view(next_ins), ref_len as int) is Some
                && res_end + edit_len(ins@)->0 + copy_len(follow_of(ins@, next_view(next_ins), ref_len as int)->0)
                <= usize::MAX) ==> r is Some,
            r matches Some((Some(t), _)) ==> edit_len(ins@)->0 > 0 && final(alt_stream)@ == old(alt_stream)@ + ins.data@
                && t.exe_code == 1 && t.start_pos as int == old(alt_stream)@.len()
                && t.length as int == edit_len(ins@)->0 && t.start_pos_res == res_end,
            r matches Some((None, _)) ==> edit_len(ins@)->0 == 0 && final(alt_stream)@ == old(alt_stream)@,
            r matches Some((_, Some(t))) ==> t.exe_code == 0 && t.start_pos_res == res_end + edit_len(ins@)->0
                && follow_of(ins@, next_view(next_ins), ref_len as int)->0 == Some((t.start_pos as int, t.length as int)),
            r matches Some((_, None)) ==> follow_of(ins@, next_view(next_ins), ref_len as int)->0 is None,
            r is Some ==> res_end + edit_len(ins@)->0
                + copy_len(follow_of(ins@, next_view(next_ins), ref_len as int)->0) <= usize::MAX,
    {
        let e = match TranscriptInstruction::edit_len_exec(ins) {
            Some(e) => e,
            None => return None,
        };
        if e > ins.data.len() {
            return None;
        }
        let f = match next_ins {
            Some(nx) => TranscriptInstruction::add_till_next_ins(ins, nx, ref_len),
            None => TranscriptInstruction::add_last_instruction(ref_len, ins),
        };
        let f = match f {
            Some(f) => f,
            None => return None,
        };
        let n: usize = match f {
            Some((_, n)) => n,
            None => 0,
        };
        if res_end > usize::MAX - e || res_end + e > usize::MAX - n {
            return None;
        }
        let et = if e > 0 {
            Some(emit_alt(ins, alt_stream, e, res_end))
        } else {
            None
        };
        let ft = match f {
            Some((s, n)) => Some(Task { exe_code: 0, start_pos: s, length: n, start_pos_res: res_end + e }),
            None => None,
        };
        Some((et, ft))
    }
}

proof fn lemma_extend(ts: Seq<Task>, t: Task, ref_s: Seq<char>, alt_s: Seq<char>, res_end: int)
    requires
        laid_out(ts),
        covered(ts) == res_end,
        all_fit(ts, ref_s.len() as int, alt_s.len() as int, res_end),
        !is_phi(t),
        t.start_pos_res == res_end,
        fits(t, ref_s.len() as int, alt_s.len() as int, res_end + t.length),
    ensures
        laid_out(ts.push(t)),
        covered(ts.push(t)) == res_end + t.length,
        all_fit(ts.push(t), ref_s.len() as int, alt_s.len() as int, res_end + t.length),
        gather(ts.push(t), ref_s, alt_s) == gather(ts, ref_s, alt_s) + slice_of(t, ref_s, alt_s),
{
    lemma_push_task(ts, t, ref_s, alt_s);
    lemma_all_fit_grow(ts, ref_s.len() as int, alt_s.len() as int, res_end, alt_s.len() as int, res_end + t.length);
    let ts2 = ts.push(t);
    assert forall|i: int| 0 <= i < ts2.len() implies
        fits(#[trigger] ts2[i], ref_s.len() as int, alt_s.len() as int, res_end + t.length) by {
        if i < ts.len() {
            assert(ts2[i] == ts[i]);
        }
    }
}

/// The instructions apply to the reference `r`, the predicted length (from a
/// reference length `l`) is the length of the edit, and the sizes fit memory.
pub open spec fn compile_owed(iv: Seq<InstructionView>, l: int, r: Seq<char>) -> bool {
    &&& iv.len() <= 0x0800_0000_0000_0000
    &&& edited(iv, r) matches Some(e)
    &&& predicted_len(iv, l) == Some(e.len() as int)
    &&& e.len() <= usize::MAX
}

/// Whether compiling a transcript succeeds: it has no instruction, loses its
/// start, or its instructions apply to its recorded reference (see `compile_owed`).
pub open spec fn compiles(t: TranscriptInstruction, recs: Seq<(String, String)>) -> bool {
    let iv = views(t.instructions@);
    ||| iv.len() == 0
    ||| has_start_lost(iv)
    ||| (lookup(recs, t.transcript_name@) matches Some(s) && compile_owed(iv, t.ref_len as int, s@))
}

/// The edited transcript that compiling yields when it succeeds.
pub open spec fn compiled_output(t: TranscriptInstruction, recs: Seq<(String, String)>) -> Seq<char> {
    let iv = views(t.instructions@);
    if iv.len() == 0 || has_start_lost(iv) {
        Seq::empty()
    } else {
        edited(iv, lookup(recs, t.transcript_name@)->0@)->0
    }
}

pub proof fn lemma_alt_total_nonneg(iv: Seq<InstructionView>, k: int)
    ensures
        alt_total(iv, k) >= 0,
    decreases k,
{
    if k > 0 {
        lemma_alt_total_nonneg(iv, k - 1);
    }
}

proof fn lemma_assembled_prefix(iv: Seq<InstructionView>, r: Seq<char>, i: int, n: int)
    requires
        0 <= i <= n,
        assembled(iv, r, n) is Some,
    ensures
        assembled(iv, r, i) is Some,
        assembled(iv, r, i)->0.len() <= assembled(iv, r, n)->0.len(),
        i < n ==> piece(iv, i, r) is Some
            && assembled(iv, r, i + 1)->0.len() == assembled(iv, r, i)->0.len() + piece(iv, i, r)->0.len(),
    decreases n - i,
{
    if i < n {
        lemma_assembled_prefix(iv, r, i + 1, n);
    }
}

proof fn lemma_owed_step(iv: Seq<InstructionView>, r: Seq<char>, i: int, n: int, res_end: int)
    requires
        0 <= i < n == iv.len(),
        !has_start_lost(iv),
        edited(iv, r) matches Some(e) && e.len() <= usize::MAX,
        assembled(iv, r, i) matches Some(a) && a.len() == res_end,
    ensures
        edit_content(iv[i]) is Some,
        follow(iv, i, r.len() as int) is Some,
        res_end + edit_len(iv[i])->0 + copy_len(follow(iv, i, r.len() as int)->0) <= usize::MAX,
{
    lemma_assembled_prefix(iv, r, i, n);
    lemma_assembled_prefix(iv, r, i + 1, n);
    let f0 = follow(iv, i, r.len() as int);
    if let Some(Some((s0, c0))) = f0 {
        assert(ref_piece(r, Some((s0, c0))).len() == c0);
    }
    assert(edit_content(iv[i])->0.len() == edit_len(iv[i])->0);
}

/// A program with no task and an empty result, naming the transcript at `(0, 0)`.
fn empty_gir(name: &String) -> (r: GIR)
    ensures
        r.g_rep@.len() == 0 && r.alt_stream@.len() == 0 && r.ref_stream@.len() == 0 && r.res_array@.len() == 0,
        r.annotation@ == seq![(*name, (0usize, 0usize))],
{
    let mut annotation: Vec<Annotation> = Vec::new();
    annotation.push((name.clone(), (0, 0)));
    GIR::new(Vec::new(), annotation, Vec::new(), Vec::new(), Vec::new())
}

/// A buffer of `n` placeholder characters.
fn placeholder_buffer(n: usize) -> (r: Vec<char>)
    ensures
        r@.len() == n,
{
    let mut v: Vec<char> = Vec::new();
    let mut i: usize = 0;
    while i < n
        invariant
            i <= n,
            v@.len() == i,
        decreases n - i,
    {
        v.push('.');
        i = i + 1;
    }
    v
}

impl TranscriptInstruction {
    /// Compiles the instructions against the reference proteome into a program
    /// whose output is the edited transcript. A start loss, or no instruction,
    /// gives the empty program. Fails when the transcript is not in the
    /// reference, when an opcode is unknown, when two instructions cannot follow
    /// each other or reach outside the reference, or when the predicted length
    /// and the emitted one differ.
    #[verifier::rlimit(60)]
    pub fn get_g_rep(&self, ref_seqs: &FastaFile) -> (r: Result<GIR, String>)
        ensures
            (self.instructions@.len() == 0 || has_start_lost(views(self.instructions@))) ==> (r matches Ok(g)
                && g.g_rep@.len() == 0 && g.res_array@.len() == 0 && g.ref_stream@.len() == 0
                && g.alt_stream@.len() == 0),
            !(self.instructions@.len() == 0 || has_start_lost(views(self.instructions@)))
                && lookup(ref_seqs.fastarecords@, self.transcript_name@) is None ==> r is Err,
            r is Ok <==> compiles(*self, ref_seqs.fastarecords@),
            r matches Ok(g) ==> {
                &&& g.wf()
                &&& g.output() == compiled_output(*self, ref_seqs.fastarecords@)
                &&& g.output().len() == g.res_array@.len()
                &&& g.alt_stream@.len() <= alt_total(views(self.instructions@), self.instructions@.len() as int)
                &&& edited(views(self.instructions@), g.ref_stream@) == Some(g.output())
                &&& g.annotation@ == seq![(self.transcript_name, (0usize, g.res_array@.len() as usize))]
                &&& (self.instructions@.len() > 0 ==>
                    predicted_len(views(self.instructions@), self.ref_len as int) == Some(g.res_array@.len() as int))
                &&& (!(self.instructions@.len() == 0 || has_start_lost(views(self.instructions@))) ==>
                    g.ref_stream@ == lookup(ref_seqs.fastarecords@, self.transcript_name@)->0@)
            },
    {
        let n = self.instructions.len();
        let ghost iv = views(self.instructions@);
        let mut lost = false;
        let mut j: usize = 0;
        while j < n
            invariant
                n == self.instructions@.len(),
                iv == views(self.instructions@),
                j <= n,
                lost == exists|k: int| 0 <= k < j && (#[trigger] iv[k].code == '0' || iv[k].code == 'U'),
            decreases n - j,
        {
            let c = self.instructions[j].code;
            assert(iv[j as int].code == c);
            if c == '0' || c == 'U' {
                lost = true;
            }
            j = j + 1;
        }
        if n == 0 || lost {
            let g = empty_gir(&self.transcript_name);
            proof {
                assert(g.g_rep@ =~= Seq::<Task>::empty());
                if n > 0 {
                    assert(predicted_len(iv, self.ref_len as int) == Some(0int));
                }
                assert(g.output() =~= Seq::<char>::empty());
                lemma_alt_total_nonneg(iv, n as int);
            }
            return Ok(g);
        }
        let ref_string = match ref_seqs.get_record(&self.transcript_name) {
            Ok(s) => s,
            Err(e) => return Err(e),
        };
        let ref_stream = chars_of(ref_string.as_str());
        let l = ref_stream.len();
        let predicted = match self.compute_expected_results_array_size() {
            Some(p) => p,
            None => return Err("the length of the edited transcript cannot be predicted".to_owned()),
        };
        let ghost owed = compile_owed(iv, self.ref_len as int, ref_stream@);
        proof {
            if owed {
                lemma_assembled_prefix(iv, ref_stream@, 0, n as int);
            }
        }
        let base = match TranscriptInstruction::build_base_instruction(&self.instructions[0], l) {
            Some(t) => t,
            None => return Err("the first instruction lies outside the reference".to_owned()),
        };
        let mut tasks: Vec<Task> = Vec::new();
        let mut alt_stream: Vec<char> = Vec::new();
        proof {
            assert(iv[0] == self.instructions@[0]@);
            lemma_extend(tasks@, base, ref_stream@, alt_stream@, 0);
            assert(gather(tasks@, ref_stream@, alt_stream@) =~= Seq::<char>::empty());
        }
        tasks.push(base);
        let mut res_end: usize = base.length;
        proof {
            assert(gather(tasks@, ref_stream@, alt_stream@) =~= assembled(iv, ref_stream@, 0)->0);
        }
        let mut i: usize = 0;
        while i < n
            invariant
                n == self.instructions@.len(),
                n > 0,
                !has_start_lost(iv),
                iv == views(self.instructions@),
                l == ref_stream@.len(),
                i <= n,
                laid_out(tasks@),
                covered(tasks@) == res_end,
                all_fit(tasks@, l as int, alt_stream@.len() as int, res_end as int),
                assembled(iv, ref_stream@, i as int) is Some,
                gather(tasks@, ref_stream@, alt_stream@) == assembled(iv, ref_stream@, i as int)->0,
                owed == compile_owed(iv, self.ref_len as int, ref_stream@),
                owed ==> predicted == edited(iv, ref_stream@)->0.len(),
                alt_stream@.len() <= alt_total(iv, i as int),
                n <= 0x0800_0000_0000_0000,
                predicted_len(iv, self.ref_len as int) == Some(predicted as int),
                lookup(ref_seqs.fastarecords@, self.transcript_name@) is Some,
                ref_stream@ == lookup(ref_seqs.fastarecords@, self.transcript_name@)->0@,
            decreases n - i,
        {
            let ins = &self.instructions[i];
            let next_ins = if i + 1 < n { Some(&self.instructions[i + 1]) } else { None };
            proof {
                assert(iv[i as int] == ins@);
                if i + 1 < n {
                    assert(iv[i as int + 1] == self.instructions@[i as int + 1]@);
                }
            }
            let ghost alt0 = alt_stream@;
            let ghost tasks0 = tasks@;
            proof {
                lemma_gather_len(tasks@, ref_stream@, alt_stream@, res_end as int);
                if owed {
                    lemma_owed_step(iv, ref_stream@, i as int, n as int, res_end as int);
                    assert(next_view(next_ins) == (if i + 1 < n { Some(iv[i as int + 1]) } else { None::<InstructionView> }));
                    assert(follow_of(ins@, next_view(next_ins), l as int) == follow(iv, i as int, l as int));
                }
            }
            let (et, ft) = match TranscriptInstruction::to_task(ins, next_ins, &mut alt_stream, res_end, l) {
                Some(x) => x,
                None => return Err("the instructions cannot be applied in this order".to_owned()),
            };
            let ghost e = edit_len(ins@)->0;
            let ghost f = follow(iv, i as int, l as int)->0;
            let ghost ec = edit_content(ins@)->0;
            proof {
                lemma_gather_alt_extend(tasks0, ref_stream@, alt0, alt_stream@.subrange(alt0.len() as int,
                    alt_stream@.len() as int), res_end as int);
                assert(alt0 + alt_stream@.subrange(alt0.len() as int, alt_stream@.len() as int) =~= alt_stream@);
                lemma_all_fit_grow(tasks0, l as int, alt0.len() as int, res_end as int, alt_stream@.len() as int,
                    res_end as int);
            }
            match et {
                Some(t) => {
                    proof {
                        assert(e > 0);
                        assert(t.start_pos == alt0.len() && t.length == e);
                        assert(alt_stream@ == alt0 + ins.data@);
                        assert(ec == ins.data@.subrange(0, e));
                        assert(alt_stream@.subrange(t.start_pos as int, t.start_pos + t.length) =~= ec);
                        lemma_extend(tasks@, t, ref_stream@, alt_stream@, res_end as int);
                    }
                    tasks.push(t);
                    res_end = res_end + t.length;
                },
                None => {
                    assert(ec =~= Seq::<char>::empty());
                },
            }
            assert(iv[i as int].data.len() == ins.data@.len());
            let ghost mid = gather(tasks@, ref_stream@, alt_stream@);
            assert(mid == assembled(iv, ref_stream@, i as int)->0 + ec);
            match ft {
                Some(t) => {
                    proof {
                        lemma_extend(tasks@, t, ref_stream@, alt_stream@, res_end as int);
                    }
                    tasks.push(t);
                    res_end = res_end + t.length;
                },
                None => {},
            }
            proof {
                assert(piece(iv, i as int, ref_stream@) == Some(ec + ref_piece(ref_stream@, f)));
                assert(gather(tasks@, ref_stream@, alt_stream@) =~= assembled(iv, ref_stream@, i as int)->0
                    + (ec + ref_piece(ref_stream@, f)));
            }
            i = i + 1;
        }
        proof {
            lemma_gather_len(tasks@, ref_stream@, alt_stream@, res_end as int);
        }
        if res_end != predicted {
            return Err("the emitted length differs from the predicted one".to_owned());
        }
        let res_array = placeholder_buffer(res_end);
        let mut annotation: Vec<Annotation> = Vec::new();
        annotation.push((self.transcript_name.clone(), (0, res_end)));
        proof {
            assert(!has_start_lost(iv));
            assert(edited(iv, ref_stream@) == assembled(iv, ref_stream@, n as int));
            assert(compile_owed(iv, self.ref_len as int, ref_stream@));
        }
        Ok(GIR::new(tasks, annotation, alt_stream, ref_stream, res_array))
    }
}

/// The instructions the mutations `ms` lower to, in order, without the empty ones.
pub open spec fn lowered(ms: Seq<Mutation>, all: Seq<Mutation>) -> Seq<InstructionView>
    decreases ms.len(),
{
    if ms.len() == 0 {
        Seq::empty()
    } else {
        let prev = lowered(ms.drop_last(), all);
        let x = lower(ms.last(), all);
        if x.code == 'E' { prev } else { prev.push(x) }
    }
}

/// The instructions the mutations of a transcript lower to, once sorted.
pub open spec fn alt_instructions(a: AltTranscript) -> Seq<InstructionView> {
    lowered(sort_by_ref(a.alts@), sort_by_ref(a.alts@))
}

/// A lowered transcript as values: name, reference length, instructions.
pub open spec fn transcript_value(t: TranscriptInstruction) -> (Seq<char>, int, Seq<InstructionView>) {
    (t.transcript_name@, t.ref_len as int, views(t.instructions@))
}

/// What lowering a transcript gives when it succeeds.
pub open spec fn lowered_transcript(a: AltTranscript, recs: Seq<(String, String)>) -> (Seq<char>, int, Seq<InstructionView>) {
    (a.name@, lookup(recs, a.name@)->0@.len() as int, alt_instructions(a))
}

/// Whether lowering a transcript succeeds: its reference is recorded, one of
/// its mutations gives an instruction, and, when the check is on, none overlap.
pub open spec fn alt_compiles(a: AltTranscript, recs: Seq<(String, String)>, diag: DiagConfig) -> bool {
    &&& lookup(recs, a.name@) is Some
    &&& alt_instructions(a).len() > 0
    &&& (diag.inspect_ins_gen ==> overlap_free(alt_instructions(a)))
}

impl TranscriptInstruction {
    /// Sorts the mutations of a transcript by reference position and lowers
    /// each to its instruction, dropping the empty ones; fails when the
    /// transcript is not in the reference or no instruction is left.
    pub fn from_alt_transcript(alt_transcript: AltTranscript, ref_seqs: &FastaFile) -> (r: Result<Self, String>)
        ensures
            r is Ok <==> lookup(ref_seqs.fastarecords@, alt_transcript.name@) is Some
                && alt_instructions(alt_transcript).len() > 0,
            r matches Ok(t) ==> transcript_value(t) == lowered_transcript(alt_transcript, ref_seqs.fastarecords@),
    {
        let ghost given = alt_transcript;
        let mut alt_transcript = alt_transcript;
        alt_transcript.sort_alterations();
        let transcript_name = alt_transcript.name;
        let ref_len = match ref_seqs.get_record(&transcript_name) {
            Ok(seq) => chars_of(seq.as_str()).len(),
            Err(e) => return Err(e),
        };
        let alts = alt_transcript.alts;
        let mut instructions: Vec<Instruction> = Vec::new();
        let mut i: usize = 0;
        while i < alts.len()
            invariant
                i <= alts@.len(),
                views(instructions@) == lowered(alts@.take(i as int), alts@),
            decreases alts.len() - i,
        {
            let ins = Instruction::from_mutation(&alts[i], &alts);
            proof {
                assert(alts@.take(i as int + 1).drop_last() =~= alts@.take(i as int));
                assert(alts@.take(i as int + 1).last() == alts@[i as int]);
            }
            if ins.code != 'E' {
                let ghost before = instructions@;
                instructions.push(ins);
                assert(views(instructions@) =~= views(before).push(ins@));
            }
            i = i + 1;
        }
        assert(alts@.take(alts@.len() as int) =~= alts@);
        assert(alts@ == sort_by_ref(given.alts@));
        if instructions.len() == 0 {
            assert(views(instructions@).len() == 0);
            return Err("none of the mutations of the transcript is supported".to_owned());
        }
        proof {
            assert(alts@.take(alts@.len() as int) =~= alts@);
        }
        Ok(TranscriptInstruction { transcript_name, ref_len, instructions })
    }
}


/// A start loss empties the edited transcript: its predicted and its edited
/// length are both 0, whatever the reference and the other instructions.
pub proof fn lemma_start_lost_collapse(iv: Seq<InstructionView>, r: Seq<char>, l: int)
    requires
        has_start_lost(iv),
    ensures
        edited(iv, r) == Some(Seq::<char>::empty()),
        predicted_len(iv, l) == Some(0int),
{
}


/// Diagnostic switches, read once by the caller and passed down.
#[derive(Debug, Clone, Copy, PartialEq, Eq, Structural)]
pub struct DiagConfig {
    /// Skip a transcript whose instructions overlap (see `overlap_free`).
    pub inspect_ins_gen: bool,
}

/// No two instructions start at the same reference position, each starts
/// past the residues of the one before it, and nothing starts within a
/// deletion or right after it.
pub open spec fn overlap_free(iv: Seq<InstructionView>) -> bool {
    &&& forall|i: int, j: int| 0 <= i < j < iv.len() ==> (#[trigger] iv[i]).pos_ref != (#[trigger] iv[j]).pos_ref
    &&& forall|i: int| 0 <= i < iv.len() - 1 ==>
        (#[trigger] iv[i + 1]).pos_res > iv[i].pos_res + iv[i].data.len() + 1
    &&& forall|i: int| 0 <= i < iv.len() - 1 && (iv[i].code == 'C' || iv[i].code == 'D') ==>
        (#[trigger] iv[i + 1]).pos_ref > iv[i].pos_res + iv[i].len + 1
}

impl TranscriptInstruction {
    /// Checks that the instructions do not overlap (see `overlap_free`).
    pub fn inspect_overlaps(&self) -> (r: Result<(), String>)
        ensures
            r is Ok <==> overlap_free(views(self.instructions@)),
    {
        let n = self.instructions.len();
        let ghost iv = views(self.instructions@);
        let mut i: usize = 0;
        while i < n
            invariant
                n == iv.len(),
                iv == views(self.instructions@),
                i <= n,
                forall|a: int, b: int| 0 <= a < b < n && a < i ==> (#[trigger] iv[a]).pos_ref != (#[trigger] iv[b]).pos_ref,
            decreases n - i,
        {
            let mut j: usize = i + 1;
            while j < n
                invariant
                    n == iv.len(),
                    iv == views(self.instructions@),
                    i < n,
                    i + 1 <= j <= n,
                    forall|a: int, b: int| 0 <= a < b < n && a < i ==> (#[trigger] iv[a]).pos_ref != (#[trigger] iv[b]).pos_ref,
                    forall|b: int| i < b < j ==> iv[i as int].pos_ref != (#[trigger] iv[b]).pos_ref,
                decreases n - j,
            {
                if self.instructions[i].pos_ref == self.instructions[j].pos_ref {
                    assert(iv[i as int].pos_ref == iv[j as int].pos_ref);
                    return Err("two instructions start at the same position".to_owned());
                }
                j = j + 1;
            }
            i = i + 1;
        }
        let mut k: usize = 0;
        while k < n && k + 1 < n
            invariant
                k <= n,
                n == iv.len(),
                iv == views(self.instructions@),
                forall|a: int, b: int| 0 <= a < b < n ==> (#[trigger] iv[a]).pos_ref != (#[trigger] iv[b]).pos_ref,
                forall|a: int| 0 <= a < k && a < n - 1 ==> (#[trigger] iv[a + 1]).pos_res > iv[a].pos_res + iv[a].data.len() + 1,
                forall|a: int| 0 <= a < k && a < n - 1 && (iv[a].code == 'C' || iv[a].code == 'D') ==>
                    (#[trigger] iv[a + 1]).pos_ref > iv[a].pos_res + iv[a].len + 1,
            decreases n - k,
        {
            let x = &self.instructions[k];
            let y = &self.instructions[k + 1];
            assert(iv[k as int] == x@ && iv[k as int + 1] == y@);
            if (y.pos_res as u128) <= (x.pos_res as u128) + (x.data.len() as u128) + 1 {
                return Err("an instruction starts inside the residues of the one before".to_owned());
            }
            if (x.code == 'C' || x.code == 'D') && (y.pos_ref as u128) <= (x.pos_res as u128) + (x.len as u128) + 1 {
                return Err("an instruction starts inside a deletion".to_owned());
            }
            k = k + 1;
        }
        Ok(())
    }

    /// Like `from_alt_transcript`; when the configuration asks for it, a
    /// transcript whose instructions overlap fails too.
    pub fn from_alt_transcript_with(alt_transcript: AltTranscript, ref_seqs: &FastaFile, diag: DiagConfig)
        -> (r: Result<Self, String>)
        ensures
            r is Ok <==> alt_compiles(alt_transcript, ref_seqs.fastarecords@, diag),
            r matches Ok(t) ==> transcript_value(t) == lowered_transcript(alt_transcript, ref_seqs.fastarecords@),
    {
        let t = match TranscriptInstruction::from_alt_transcript(alt_transcript, ref_seqs) {
            Ok(t) => t,
            Err(e) => return Err(e),
        };
        if diag.inspect_ins_gen {
            match t.inspect_overlaps() {
                Ok(()) => {},
                Err(e) => return Err(e),
            }
        }
        Ok(t)
    }
}

} // verus!
