use vstd::prelude::*;
use crate::task::{fits, is_phi, slice_of, Task};
use crate::gir::{all_fit, covered, gather, laid_out, lemma_take_step, Annotation, GIR};
use crate::transcript::{compiled_output, compiles, lemma_alt_total_nonneg, alt_compiles, alt_total, lowered_transcript, predicted_len, transcript_value, views, DiagConfig,
    TranscriptInstruction};
use crate::instruction::InstructionView;
use crate::vcf::AltTranscript;
use crate::fasta::FastaFile;
use crate::text::append_chars;
use crate::Engine;

verus! {

/// Every annotated range of a program lies inside its result buffer.
pub open spec fn annotations_inside(g: GIR) -> bool {
    forall|k: int| 0 <= k < g.annotation@.len() ==>
        (#[trigger] g.annotation@[k]).1.0 <= g.annotation@[k].1.1 <= g.res_array@.len()
}

/// The total length of the result buffers of the programs.
pub open spec fn res_total(gs: Seq<GIR>) -> int
    decreases gs.len(),
{
    if gs.len() == 0 { 0 } else { res_total(gs.drop_last()) + gs.last().res_array@.len() }
}

/// The outputs of the programs, one after the other.
pub open spec fn outputs(gs: Seq<GIR>) -> Seq<char>
    decreases gs.len(),
{
    if gs.len() == 0 { Seq::empty() } else { outputs(gs.drop_last()) + gs.last().output() }
}

/// An annotation moved `by` positions further in the result.
pub open spec fn moved(a: Annotation, by: int) -> (Seq<char>, int, int) {
    (a.0@, a.1.0 + by, a.1.1 + by)
}

/// The annotations of the programs, each moved to where its program's result
/// lands in the concatenation.
pub open spec fn moved_annotations(gs: Seq<GIR>) -> Seq<(Seq<char>, int, int)>
    decreases gs.len(),
{
    if gs.len() == 0 {
        Seq::empty()
    } else {
        let by = res_total(gs.drop_last());
        moved_annotations(gs.drop_last()) + Seq::new(gs.last().annotation@.len(), |k: int| moved(gs.last().annotation@[k], by))
    }
}

pub open spec fn annotation_values(a: Seq<Annotation>) -> Seq<(Seq<char>, int, int)> {
    Seq::new(a.len(), |k: int| (a[k].0@, a[k].1.0 as int, a[k].1.1 as int))
}

proof fn lemma_push_any(ts: Seq<Task>, t: Task, ref_s: Seq<char>, alt_s: Seq<char>)
    requires
        laid_out(ts),
        !is_phi(t) ==> t.start_pos_res == covered(ts),
    ensures
        laid_out(ts.push(t)),
        covered(ts.push(t)) == covered(ts) + if is_phi(t) { 0 } else { t.length as int },
        gather(ts.push(t), ref_s, alt_s) == gather(ts, ref_s, alt_s) + slice_of(t, ref_s, alt_s),
{
    let ts2 = ts.push(t);
    assert(ts2.drop_last() =~= ts);
    assert forall|i: int| 0 <= i < ts2.len() && !is_phi(#[trigger] ts2[i]) implies
        ts2[i].start_pos_res == covered(ts2.take(i)) by {
        if i < ts.len() {
            assert(ts2.take(i) =~= ts.take(i));
            assert(ts2[i] == ts[i]);
        } else {
            assert(ts2.take(i) =~= ts);
        }
    }
}

proof fn lemma_gather_arenas_extend(ts: Seq<Task>, r0: Seq<char>, a0: Seq<char>, r1: Seq<char>, a1: Seq<char>, res_len: int)
    requires
        all_fit(ts, r0.len() as int, a0.len() as int, res_len),
    ensures
        gather(ts, r0 + r1, a0 + a1) == gather(ts, r0, a0),
    decreases ts.len(),
{
    if ts.len() > 0 {
        let pre = ts.drop_last();
        assert forall|i: int| 0 <= i < pre.len() implies
            fits(#[trigger] pre[i], r0.len() as int, a0.len() as int, res_len) by {
            assert(pre[i] == ts[i]);
        }
        lemma_gather_arenas_extend(pre, r0, a0, r1, a1, res_len);
        let t = ts.last();
        assert(fits(ts[ts.len() - 1], r0.len() as int, a0.len() as int, res_len));
        if !is_phi(t) {
            if t.exe_code == 0 {
                assert((r0 + r1).subrange(t.start_pos as int, t.start_pos + t.length)
                    =~= r0.subrange(t.start_pos as int, t.start_pos + t.length));
            } else {
                assert((a0 + a1).subrange(t.start_pos as int, t.start_pos + t.length)
                    =~= a0.subrange(t.start_pos as int, t.start_pos + t.length));
            }
        }
    }
}

proof fn lemma_fit_grow(ts: Seq<Task>, r1: int, a1: int, s1: int, r2: int, a2: int, s2: int)
    requires
        all_fit(ts, r1, a1, s1),
        r1 <= r2,
        a1 <= a2,
        s1 <= s2,
    ensures
        all_fit(ts, r2, a2, s2),
{
    assert forall|i: int| 0 <= i < ts.len() implies fits(#[trigger] ts[i], r2, a2, s2) by {
        assert(fits(ts[i], r1, a1, s1));
    }
}

/// Concatenates the programs of the transcripts of one haplotype: arenas and
/// result buffers are laid end to end, task offsets and annotations move with them.
#[verifier::rlimit(80)]
pub fn assemble(frags: &Vec<GIR>) -> (r: GIR)
    requires
        forall|k: int| 0 <= k < frags@.len() ==> (#[trigger] frags@[k]).wf() && annotations_inside(frags@[k]),
    ensures
        r.wf(),
        annotations_inside(r),
        r.output() == outputs(frags@),
        r.res_array@.len() == res_total(frags@),
        annotation_values(r.annotation@) == moved_annotations(frags@),
{
    let mut tasks: Vec<Task> = Vec::new();
    let mut annotation: Vec<Annotation> = Vec::new();
    let mut alt_stream: Vec<char> = Vec::new();
    let mut ref_stream: Vec<char> = Vec::new();
    let mut res_array: Vec<char> = Vec::new();
    let mut f: usize = 0;
    assert(annotation_values(annotation@) =~= moved_annotations(frags@.take(0)));
    while f < frags.len()
        invariant
            f <= frags@.len(),
            forall|k: int| 0 <= k < frags@.len() ==> (#[trigger] frags@[k]).wf() && annotations_inside(frags@[k]),
            laid_out(tasks@),
            covered(tasks@) == res_array@.len(),
            all_fit(tasks@, ref_stream@.len() as int, alt_stream@.len() as int, res_array@.len() as int),
            gather(tasks@, ref_stream@, alt_stream@) == outputs(frags@.take(f as int)),
            res_array@.len() == res_total(frags@.take(f as int)),
            annotation_values(annotation@) == moved_annotations(frags@.take(f as int)),
            forall|k: int| 0 <= k < annotation@.len() ==>
                (#[trigger] annotation@[k]).1.0 <= annotation@[k].1.1 <= res_array@.len(),
        decreases frags.len() - f,
    {
        let g = &frags[f];
        assert(g.wf() && annotations_inside(*g));
        let ghost t0 = tasks@;
        let ghost r0 = ref_stream@;
        let ghost a0 = alt_stream@;
        let ghost out0 = gather(tasks@, ref_stream@, alt_stream@);
        let ro = ref_stream.len();
        let ao = alt_stream.len();
        let so = res_array.len();
        append_chars(&mut ref_stream, &g.ref_stream);
        append_chars(&mut alt_stream, &g.alt_stream);
        append_chars(&mut res_array, &g.res_array);
        let rl = ref_stream.len();
        let al = alt_stream.len();
        let sl = res_array.len();
        proof {
            lemma_gather_arenas_extend(t0, r0, a0, g.ref_stream@, g.alt_stream@, so as int);
            lemma_fit_grow(t0, r0.len() as int, a0.len() as int, so as int, rl as int, al as int, sl as int);
        }
        let n = g.g_rep.len();
        let mut j: usize = 0;
        while j < n
            invariant
                n == g.g_rep@.len(),
                j <= n,
                g.wf(),
                ro == r0.len(),
                ao == a0.len(),
                ref_stream@ == r0 + g.ref_stream@,
                alt_stream@ == a0 + g.alt_stream@,
                rl == ref_stream@.len(),
                al == alt_stream@.len(),
                sl == res_array@.len(),
                sl == so + g.res_array@.len(),
                laid_out(tasks@),
                covered(tasks@) == so + covered(g.g_rep@.take(j as int)),
                all_fit(tasks@, rl as int, al as int, sl as int),
                gather(tasks@, ref_stream@, alt_stream@) == out0 + gather(g.g_rep@.take(j as int), g.ref_stream@, g.alt_stream@),
            decreases n - j,
        {
            let t = g.g_rep[j];
            proof {
                lemma_take_step(g.g_rep@, j as int, g.ref_stream@, g.alt_stream@);
                assert(fits(g.g_rep@[j as int], g.ref_stream@.len() as int, g.alt_stream@.len() as int,
                    g.res_array@.len() as int));
            }
            if t.exe_code == 0 || t.exe_code == 1 {
                let moved_t = HaplotypeInstruction::update_task(t, &ro, &ao, &so);
                proof {
                    assert(t.start_pos_res == covered(g.g_rep@.take(j as int)));
                    lemma_push_any(tasks@, moved_t, ref_stream@, alt_stream@);
                    if t.exe_code == 0 {
                        assert(ref_stream@.subrange(moved_t.start_pos as int, moved_t.start_pos + moved_t.length)
                            =~= g.ref_stream@.subrange(t.start_pos as int, t.start_pos + t.length));
                    } else {
                        assert(alt_stream@.subrange(moved_t.start_pos as int, moved_t.start_pos + moved_t.length)
                            =~= g.alt_stream@.subrange(t.start_pos as int, t.start_pos + t.length));
                    }
                    let ts2 = tasks@.push(moved_t);
                    assert forall|i: int| 0 <= i < ts2.len() implies fits(#[trigger] ts2[i], rl as int, al as int, sl as int) by {
                        if i < tasks@.len() {
                            assert(ts2[i] == tasks@[i]);
                        }
                    }
                }
                tasks.push(moved_t);
            }
            j = j + 1;
        }
        let ghost ann0 = annotation@;
        assert forall|i: int| 0 <= i < annotation@.len() implies
            (#[trigger] annotation@[i]).1.0 <= annotation@[i].1.1 <= sl by {}
        let na = g.annotation.len();
        let mut k: usize = 0;
        while k < na
            invariant
                na == g.annotation@.len(),
                k <= na,
                annotations_inside(*g),
                sl == so + g.res_array@.len(),
                annotation@.len() == ann0.len() + k,
                sl == res_array@.len(),
                forall|i: int| 0 <= i < annotation@.len() ==>
                    (#[trigger] annotation@[i]).1.0 <= annotation@[i].1.1 <= sl,
                forall|i: int| 0 <= i < ann0.len() ==> #[trigger] annotation@[i] == ann0[i],
                forall|i: int| 0 <= i < k ==> #[trigger] annotation@[ann0.len() + i] == (g.annotation@[i].0,
                    ((g.annotation@[i].1.0 + so) as usize, (g.annotation@[i].1.1 + so) as usize)),
            decreases na - k,
        {
            let a = &g.annotation[k];
            assert(a.1.0 <= a.1.1 <= g.res_array@.len());
            let entry: Annotation = (a.0.clone(), (a.1.0 + so, a.1.1 + so));
            let ghost before = annotation@;
            annotation.push(entry);
            assert(annotation@[ann0.len() + k] == entry);
            assert forall|i: int| 0 <= i < k implies #[trigger] annotation@[ann0.len() + i] == before[ann0.len() + i] by {}
            k = k + 1;
        }
        proof {
            let fs = frags@.take(f as int + 1);
            assert(fs.drop_last() =~= frags@.take(f as int));
            assert(fs.last() == *g);
            assert(g.g_rep@.take(n as int) =~= g.g_rep@);
            let tail = Seq::new(g.annotation@.len(), |i: int| moved(g.annotation@[i], res_total(frags@.take(f as int))));
            assert(so == res_total(frags@.take(f as int)));
            assert forall|i: int| 0 <= i < annotation@.len() implies
                #[trigger] annotation_values(annotation@)[i] == (annotation_values(ann0) + tail)[i] by {
                if i < ann0.len() {
                    assert(annotation@[i] == ann0[i]);
                } else {
                    let m = i - ann0.len();
                    assert(annotation@[ann0.len() + m] == (g.annotation@[m].0,
                        ((g.annotation@[m].1.0 + so) as usize, (g.annotation@[m].1.1 + so) as usize)));
                    assert(g.annotation@[m].1.0 <= g.annotation@[m].1.1 <= g.res_array@.len());
                }
            }
            assert(annotation_values(annotation@) =~= annotation_values(ann0) + tail);
        }
        f = f + 1;
    }
    assert(frags@.take(frags@.len() as int) =~= frags@);
    GIR::new(tasks, annotation, alt_stream, ref_stream, res_array)
}

/// The sum of the predicted lengths of the transcripts, those that have one.
pub open spec fn res_sizes(ts: Seq<TranscriptInstruction>) -> int
    decreases ts.len(),
{
    if ts.len() == 0 {
        0
    } else {
        res_sizes(ts.drop_last()) + match predicted_len(views(ts.last().instructions@), ts.last().ref_len as int) {
            Some(p) => p,
            None => 0,
        }
    }
}

/// The total length of the references of the transcripts that are recorded.
pub open spec fn ref_sizes(ts: Seq<TranscriptInstruction>, recs: Seq<(String, String)>) -> int
    decreases ts.len(),
{
    if ts.len() == 0 {
        0
    } else {
        ref_sizes(ts.drop_last(), recs) + match crate::fasta::lookup(recs, ts.last().transcript_name@) {
            Some(s) => s@.len() as int,
            None => 0,
        }
    }
}

/// The lowered transcripts as values.
pub open spec fn transcript_values(ts: Seq<TranscriptInstruction>) -> Seq<(Seq<char>, int, Seq<InstructionView>)> {
    Seq::new(ts.len(), |i: int| transcript_value(ts[i]))
}

/// The transcripts that lower successfully, lowered, in order.
pub open spec fn lowered_transcripts(alts: Seq<AltTranscript>, recs: Seq<(String, String)>, diag: DiagConfig)
    -> Seq<(Seq<char>, int, Seq<InstructionView>)>
    decreases alts.len(),
{
    if alts.len() == 0 {
        Seq::empty()
    } else {
        let prev = lowered_transcripts(alts.drop_last(), recs, diag);
        if alt_compiles(alts.last(), recs, diag) { prev.push(lowered_transcript(alts.last(), recs)) } else { prev }
    }
}

/// A count, or `usize::MAX` when it is larger.
pub open spec fn saturated(n: int) -> usize {
    if n <= usize::MAX { n as usize } else { usize::MAX }
}

/// The residues the transcripts carry.
pub open spec fn alt_sizes(ts: Seq<TranscriptInstruction>) -> int
    decreases ts.len(),
{
    if ts.len() == 0 {
        0
    } else {
        alt_sizes(ts.drop_last()) + alt_total(views(ts.last().instructions@), ts.last().instructions@.len() as int)
    }
}

/// The instructions of the transcripts.
pub open spec fn instruction_count(ts: Seq<TranscriptInstruction>) -> int
    decreases ts.len(),
{
    if ts.len() == 0 { 0 } else { instruction_count(ts.drop_last()) + ts.last().instructions@.len() }
}

proof fn lemma_sizes_nonneg(ts: Seq<TranscriptInstruction>)
    ensures
        alt_sizes(ts) >= 0,
        instruction_count(ts) >= 0,
    decreases ts.len(),
{
    if ts.len() > 0 {
        lemma_sizes_nonneg(ts.drop_last());
        lemma_alt_total_nonneg(views(ts.last().instructions@), ts.last().instructions@.len() as int);
    }
}

/// The lowered transcripts of one haplotype.
#[derive(Debug, Clone)]
pub struct HaplotypeInstruction {
    pub instructions: Vec<TranscriptInstruction>,
}

impl HaplotypeInstruction {
    /// Moves a task of a transcript's program to where that program's arenas and
    /// result land: the start in its stream by the offset of that stream, the
    /// start in the result by the result offset.
    fn update_task(task: Task, ref_counter: &usize, alt_counter: &usize, res_counter: &usize) -> (r: Task)
        requires
            task.exe_code == 0 || task.exe_code == 1,
            task.start_pos + (if task.exe_code == 0 { *ref_counter } else { *alt_counter }) <= usize::MAX,
            task.start_pos_res + *res_counter <= usize::MAX,
        ensures
            r == (Task {
                exe_code: task.exe_code,
                start_pos: (task.start_pos + (if task.exe_code == 0 { *ref_counter } else { *alt_counter })) as usize,
                length: task.length,
                start_pos_res: (task.start_pos_res + *res_counter) as usize,
            }),
    {
        let mut t = task;
        if t.exe_code == 0 {
            t.shift_start_pos_stream(ref_counter);
        } else {
            t.shift_start_pos_stream(alt_counter);
        }
        t.shift_start_pos_res(res_counter);
        t
    }

    /// The total length of the references of the transcripts; `None` when one
    /// is not in the reference proteome or the sum does not fit a `usize`.
    pub fn get_size_ref_array(&self, ref_seq: &FastaFile) -> (r: Option<usize>)
        ensures
            r matches Some(total) ==> total == ref_sizes(self.instructions@, ref_seq.fastarecords@),
    {
        let mut total: usize = 0;
        let mut i: usize = 0;
        while i < self.instructions.len()
            invariant
                i <= self.instructions@.len(),
                total == ref_sizes(self.instructions@.take(i as int), ref_seq.fastarecords@),
            decreases self.instructions.len() - i,
        {
            assert(self.instructions@.take(i as int + 1).drop_last() =~= self.instructions@.take(i as int));
            assert(self.instructions@.take(i as int + 1).last() == self.instructions@[i as int]);
            let k = match ref_seq.get_record(&self.instructions[i].transcript_name) {
                Ok(s) => crate::text::chars_of(s.as_str()).len(),
                Err(_) => return None,
            };
            if total > usize::MAX - k {
                return None;
            }
            total = total + k;
            i = i + 1;
        }
        assert(self.instructions@.take(self.instructions@.len() as int) =~= self.instructions@);
        Some(total)
    }

    pub fn new(instructions: Vec<TranscriptInstruction>) -> (r: Self)
        ensures r.instructions == instructions,
    {
        HaplotypeInstruction { instructions }
    }

    /// Lowers the mutations of each transcript; a transcript that fails (not in
    /// the reference, nothing supported) is skipped. Every engine gives the same
    /// result.
    pub fn from_vec_t_ins(alt_trans_vec: Vec<AltTranscript>, engine: Engine, ref_seq: &FastaFile) -> (r: Self)
        ensures
            transcript_values(r.instructions@)
                == lowered_transcripts(alt_trans_vec@, ref_seq.fastarecords@, DiagConfig { inspect_ins_gen: false }),
    {
        HaplotypeInstruction::from_vec_t_ins_with(alt_trans_vec, engine, ref_seq, DiagConfig { inspect_ins_gen: false })
    }

    /// Like `from_vec_t_ins`, with the diagnostic switches `diag`.
    pub fn from_vec_t_ins_with(alt_trans_vec: Vec<AltTranscript>, engine: Engine, ref_seq: &FastaFile,
        diag: DiagConfig) -> (r: Self)
        ensures
            transcript_values(r.instructions@) == lowered_transcripts(alt_trans_vec@, ref_seq.fastarecords@, diag),
    {
        let mut out: Vec<TranscriptInstruction> = Vec::new();
        let mut rest = alt_trans_vec;
        let ghost all = rest@;
        let ghost mut k: int = 0;
        assert(all.subrange(0, all.len() as int) =~= all);
        assert(transcript_values(out@) =~= lowered_transcripts(all.take(0), ref_seq.fastarecords@, diag));
        while rest.len() > 0
            invariant
                0 <= k <= all.len(),
                rest@ == all.subrange(k, all.len() as int),
                transcript_values(out@) == lowered_transcripts(all.take(k), ref_seq.fastarecords@, diag),
            decreases rest@.len(),
        {
            let alt = rest.remove(0);
            proof {
                assert(alt == all[k]);
                assert(rest@ =~= all.subrange(k + 1, all.len() as int));
                assert(all.take(k + 1).drop_last() =~= all.take(k));
                assert(all.take(k + 1).last() == all[k]);
            }
            let ghost before = out@;
            match TranscriptInstruction::from_alt_transcript_with(alt, ref_seq, diag) {
                Ok(t) => {
                    out.push(t);
                    assert(transcript_values(out@) =~= transcript_values(before).push(transcript_value(t)));
                },
                Err(_) => {},
            }
            proof {
                k = k + 1;
            }
        }
        assert(all.take(k) =~= all);
        HaplotypeInstruction { instructions: out }
    }

    /// The predicted length of the haplotype's edited stream: the sum of the
    /// predicted lengths of its transcripts; `None` when one cannot be predicted
    /// or the sum does not fit a `usize`.
    pub fn get_size_results_array(&self) -> (r: Option<usize>)
        ensures
            r matches Some(total) ==> total == res_sizes(self.instructions@),
    {
        let mut total: usize = 0;
        let mut i: usize = 0;
        while i < self.instructions.len()
            invariant
                i <= self.instructions@.len(),
                total == res_sizes(self.instructions@.take(i as int)),
            decreases self.instructions.len() - i,
        {
            assert(self.instructions@.take(i as int + 1).drop_last() =~= self.instructions@.take(i as int));
            let p = match self.instructions[i].compute_expected_results_array_size() {
                Some(p) => p,
                None => return None,
            };
            if total > usize::MAX - p {
                return None;
            }
            assert(predicted_len(views(self.instructions@[i as int].instructions@), self.instructions@[i as int].ref_len as int)
                == Some(p as int));
            total = total + p;
            i = i + 1;
        }
        assert(self.instructions@.take(self.instructions@.len() as int) =~= self.instructions@);
        Some(total)
    }

    /// The number of residues the transcripts place in the alternative arena
    /// (saturated at `usize::MAX`).
    pub fn get_size_alt_array(&self) -> (r: usize)
        ensures
            r == saturated(alt_sizes(self.instructions@)),
    {
        let mut total: usize = 0;
        let mut i: usize = 0;
        while i < self.instructions.len()
            invariant
                i <= self.instructions@.len(),
                total == saturated(alt_sizes(self.instructions@.take(i as int))),
            decreases self.instructions.len() - i,
        {
            assert(self.instructions@.take(i as int + 1).drop_last() =~= self.instructions@.take(i as int));
            assert(self.instructions@.take(i as int + 1).last() == self.instructions@[i as int]);
            proof {
                lemma_sizes_nonneg(self.instructions@.take(i as int));
                lemma_alt_total_nonneg(views(self.instructions@[i as int].instructions@),
                    self.instructions@[i as int].instructions@.len() as int);
            }
            let k = self.instructions[i].compute_alt_stream_size();
            total = if total > usize::MAX - k { usize::MAX } else { total + k };
            i = i + 1;
        }
        assert(self.instructions@.take(self.instructions@.len() as int) =~= self.instructions@);
        total
    }

    /// At most three tasks per instruction: the capacity to reserve for the tasks
    /// (saturated at `usize::MAX`).
    pub fn get_expected_number_of_tasks(&self) -> (r: usize)
        ensures
            r == saturated(3 * instruction_count(self.instructions@)),
    {
        let mut total: usize = 0;
        let mut i: usize = 0;
        while i < self.instructions.len()
            invariant
                i <= self.instructions@.len(),
                total == saturated(3 * instruction_count(self.instructions@.take(i as int))),
            decreases self.instructions.len() - i,
        {
            assert(self.instructions@.take(i as int + 1).drop_last() =~= self.instructions@.take(i as int));
            assert(self.instructions@.take(i as int + 1).last() == self.instructions@[i as int]);
            proof {
                lemma_sizes_nonneg(self.instructions@.take(i as int));
            }
            let n = self.instructions[i].instructions.len();
            let k = if n > usize::MAX / 3 { usize::MAX } else { 3 * n };
            total = if total > usize::MAX - k { usize::MAX } else { total + k };
            i = i + 1;
        }
        assert(self.instructions@.take(self.instructions@.len() as int) =~= self.instructions@);
        total
    }

    /// Compiles every transcript and concatenates the programs; a transcript
    /// that fails to compile is skipped. Every engine gives the same program.
    pub fn get_g_rep(&mut self, ref_seq: &FastaFile, engine: Engine) -> (r: GIR)
        ensures
            r.wf(),
            annotations_inside(r),
            r.output() == hap_output(old(self).instructions@, ref_seq.fastarecords@),
            r.res_array@.len() == hap_output(old(self).instructions@, ref_seq.fastarecords@).len(),
            annotation_values(r.annotation@) == hap_annotations(old(self).instructions@, ref_seq.fastarecords@),
            *final(self) == *old(self),
    {
        let mut frags: Vec<GIR> = Vec::new();
        let mut i: usize = 0;
        let ghost recs = ref_seq.fastarecords@;
        assert(outputs(frags@) =~= hap_output(self.instructions@.take(0), recs));
        assert(moved_annotations(frags@) =~= hap_annotations(self.instructions@.take(0), recs));
        while i < self.instructions.len()
            invariant
                i <= self.instructions@.len(),
                recs == ref_seq.fastarecords@,
                forall|k: int| 0 <= k < frags@.len() ==> (#[trigger] frags@[k]).wf() && annotations_inside(frags@[k]),
                outputs(frags@) == hap_output(self.instructions@.take(i as int), recs),
                res_total(frags@) == hap_output(self.instructions@.take(i as int), recs).len(),
                moved_annotations(frags@) == hap_annotations(self.instructions@.take(i as int), recs),
            decreases self.instructions.len() - i,
        {
            let ghost ts = self.instructions@.take(i as int + 1);
            assert(ts.drop_last() =~= self.instructions@.take(i as int));
            assert(ts.last() == self.instructions@[i as int]);
            match self.instructions[i].get_g_rep(ref_seq) {
                Ok(g) => {
                    proof {
                        assert(annotations_inside(g)) by {
                            assert(g.annotation@.len() == 1);
                        }
                    }
                    let ghost before = frags@;
                    frags.push(g);
                    proof {
                        assert(frags@.drop_last() =~= before);
                        assert(frags@.last() == g);
                        let by = res_total(before);
                        assert(Seq::new(g.annotation@.len(), |k: int| moved(g.annotation@[k], by))
                            =~= seq![(self.instructions@[i as int].transcript_name@, by, by + g.res_array@.len())]);
                    }
                },
                Err(_) => {},
            }
            i = i + 1;
        }
        assert(self.instructions@.take(i as int) =~= self.instructions@);
        assemble(&frags)
    }
}

/// The edited transcripts of the transcripts that compile, one after the other.
pub open spec fn hap_output(ts: Seq<TranscriptInstruction>, recs: Seq<(String, String)>) -> Seq<char>
    decreases ts.len(),
{
    if ts.len() == 0 {
        Seq::empty()
    } else {
        hap_output(ts.drop_last(), recs) + if compiles(ts.last(), recs) { compiled_output(ts.last(), recs) } else { Seq::empty() }
    }
}

/// The range of each transcript that compiles in `hap_output`, under its name.
pub open spec fn hap_annotations(ts: Seq<TranscriptInstruction>, recs: Seq<(String, String)>) -> Seq<(Seq<char>, int, int)>
    decreases ts.len(),
{
    if ts.len() == 0 {
        Seq::empty()
    } else {
        let at = hap_output(ts.drop_last(), recs).len() as int;
        hap_annotations(ts.drop_last(), recs) + if compiles(ts.last(), recs) {
            seq![(ts.last().transcript_name@, at, at + compiled_output(ts.last(), recs).len())]
        } else {
            Seq::empty()
        }
    }
}

} // verus!
