use vstd::prelude::*;
use crate::task::{fits, is_phi, slice_of, Task};
use crate::Engine;

verus! {

/// Where a transcript lies in an edited stream: its name and `(start, end)`.
pub type Annotation = (String, (usize, usize));

/// The characters the non-empty tasks of `ts` copy, in order.
pub open spec fn covered(ts: Seq<Task>) -> int
    decreases ts.len(),
{
    if ts.len() == 0 {
        0
    } else {
        covered(ts.drop_last()) + if is_phi(ts.last()) { 0 } else { ts.last().length as int }
    }
}

/// Each non-empty task writes right after the ones before it, starting at 0.
pub open spec fn laid_out(ts: Seq<Task>) -> bool {
    forall|i: int| 0 <= i < ts.len() && !is_phi(#[trigger] ts[i]) ==> ts[i].start_pos_res == covered(ts.take(i))
}

/// Every task reads and writes inside its arena and the result.
pub open spec fn all_fit(ts: Seq<Task>, ref_len: int, alt_len: int, res_len: int) -> bool {
    forall|i: int| 0 <= i < ts.len() ==> fits(#[trigger] ts[i], ref_len, alt_len, res_len)
}

/// The concatenation of the slices the tasks copy.
pub open spec fn gather(ts: Seq<Task>, ref_s: Seq<char>, alt_s: Seq<char>) -> Seq<char>
    decreases ts.len(),
{
    if ts.len() == 0 {
        Seq::empty()
    } else {
        gather(ts.drop_last(), ref_s, alt_s) + slice_of(ts.last(), ref_s, alt_s)
    }
}

/// A program of tasks over a reference arena and an alternative arena, with a
/// result buffer and the place of each transcript in it.
#[derive(Debug, Clone)]
pub struct GIR {
    pub g_rep: Vec<Task>,
    pub annotation: Vec<Annotation>,
    pub alt_stream: Vec<char>,
    pub ref_stream: Vec<char>,
    pub res_array: Vec<char>,
}

impl GIR {
    /// Tasks stay inside the arenas and cover the result buffer densely, in order.
    pub open spec fn wf(&self) -> bool {
        &&& all_fit(self.g_rep@, self.ref_stream@.len() as int, self.alt_stream@.len() as int,
            self.res_array@.len() as int)
        &&& laid_out(self.g_rep@)
        &&& covered(self.g_rep@) == self.res_array@.len()
    }

    /// The edited stream the program produces.
    pub open spec fn output(&self) -> Seq<char> {
        gather(self.g_rep@, self.ref_stream@, self.alt_stream@)
    }

    pub fn new(g_rep: Vec<Task>, annotation: Vec<Annotation>, alt_stream: Vec<char>, ref_stream: Vec<char>,
        res_array: Vec<char>) -> (r: Self)
        ensures
            r == (GIR { g_rep, annotation, alt_stream, ref_stream, res_array }),
    {
        GIR { g_rep, annotation, alt_stream, ref_stream, res_array }
    }

    pub fn get_tasks(&self) -> (r: &Vec<Task>)
        ensures r == &self.g_rep,
    {
        &self.g_rep
    }

    pub fn consume_and_get_tasks(self) -> (r: Vec<Task>)
        ensures r == self.g_rep,
    {
        self.g_rep
    }

    /// Hands out the parts: tasks, annotations, alternative arena, reference arena, result buffer.
    pub fn consumer_and_get_resources(self) -> (r: (Vec<Task>, Vec<Annotation>, Vec<char>, Vec<char>, Vec<char>))
        ensures
            r == (self.g_rep, self.annotation, self.alt_stream, self.ref_stream, self.res_array),
    {
        (self.g_rep, self.annotation, self.alt_stream, self.ref_stream, self.res_array)
    }

    pub fn get_annotation(&self) -> (r: &Vec<Annotation>)
        ensures r == &self.annotation,
    {
        &self.annotation
    }

    /// The largest end of an annotated range (0 when there is none).
    pub fn get_results_max(&self) -> (r: usize)
        ensures
            forall|i: int| 0 <= i < self.annotation@.len() ==> (#[trigger] self.annotation@[i]).1.1 <= r,
            r == 0 || exists|i: int| 0 <= i < self.annotation@.len() && (#[trigger] self.annotation@[i]).1.1 == r,
    {
        max_end(&self.annotation)
    }

    /// Runs the program and returns the edited stream with the annotations; every
    /// engine yields the same stream.
    pub fn execute(self, engine: Engine) -> (r: (Vec<char>, Vec<Annotation>))
        requires
            self.wf(),
        ensures
            r.0@ == self.output(),
            r.0@.len() == self.res_array@.len(),
            r.1 == self.annotation,
    {
        proof {
            lemma_gather_len(self.g_rep@, self.ref_stream@, self.alt_stream@, self.res_array@.len() as int);
        }
        match engine {
            Engine::ST | Engine::MT => {
                let GIR { g_rep, annotation, alt_stream, ref_stream, mut res_array } = self;
                run_tasks(&g_rep, &mut res_array, &ref_stream, &alt_stream);
                (res_array, annotation)
            },
            Engine::GPU => {
                let (exec_code, start_pos, length, start_pos_res, mut res_array, ref_array, alt_array, annotation) =
                    self.consume_and_produce_produce_content();
                run_columns(&exec_code, &start_pos, &length, &start_pos_res, &mut res_array, &ref_array, &alt_array,
                    Ghost(self.g_rep@));
                (res_array, annotation)
            },
        }
    }

    /// Lays the tasks out as four parallel columns (stream, start, length, start
    /// in the result), the form a data-parallel device takes, with the buffers.
    pub fn consume_and_produce_produce_content(self) -> (r: (Vec<usize>, Vec<usize>, Vec<usize>, Vec<usize>,
        Vec<char>, Vec<char>, Vec<char>, Vec<Annotation>))
        ensures
            columns_of(self.g_rep@, r.0@, r.1@, r.2@, r.3@),
            r.4 == self.res_array,
            r.5 == self.ref_stream,
            r.6 == self.alt_stream,
            r.7 == self.annotation,
    {
        let n = self.g_rep.len();
        let mut exec_code: Vec<usize> = Vec::new();
        let mut start_pos: Vec<usize> = Vec::new();
        let mut length: Vec<usize> = Vec::new();
        let mut start_pos_res: Vec<usize> = Vec::new();
        let mut i: usize = 0;
        while i < n
            invariant
                n == self.g_rep@.len(),
                i <= n,
                columns_of(self.g_rep@.take(i as int), exec_code@, start_pos@, length@, start_pos_res@),
            decreases n - i,
        {
            let t = self.g_rep[i];
            exec_code.push(t.exe_code as usize);
            start_pos.push(t.start_pos);
            length.push(t.length);
            start_pos_res.push(t.start_pos_res);
            i = i + 1;
            assert(self.g_rep@.take(i as int).drop_last() =~= self.g_rep@.take(i as int - 1));
        }
        assert(self.g_rep@.take(n as int) =~= self.g_rep@);
        let GIR { g_rep, annotation, alt_stream, ref_stream, res_array } = self;
        (exec_code, start_pos, length, start_pos_res, res_array, ref_stream, alt_stream, annotation)
    }
}

/// Four columns hold, index by index, the fields of the tasks.
pub open spec fn columns_of(ts: Seq<Task>, code: Seq<usize>, start: Seq<usize>, len: Seq<usize>, res: Seq<usize>) -> bool {
    &&& code.len() == ts.len() && start.len() == ts.len() && len.len() == ts.len() && res.len() == ts.len()
    &&& forall|i: int| 0 <= i < ts.len() ==> {
        &&& code[i] == (#[trigger] ts[i]).exe_code as usize
        &&& start[i] == ts[i].start_pos
        &&& len[i] == ts[i].length
        &&& res[i] == ts[i].start_pos_res
    }
}

pub(crate) fn max_end(a: &Vec<Annotation>) -> (r: usize)
    ensures
        forall|i: int| 0 <= i < a@.len() ==> (#[trigger] a@[i]).1.1 <= r,
        r == 0 || exists|i: int| 0 <= i < a@.len() && (#[trigger] a@[i]).1.1 == r,
{
    let mut best: usize = 0;
    let mut i: usize = 0;
    while i < a.len()
        invariant
            i <= a@.len(),
            forall|j: int| 0 <= j < i ==> (#[trigger] a@[j]).1.1 <= best,
            best == 0 || exists|j: int| 0 <= j < i && (#[trigger] a@[j]).1.1 == best,
        decreases a.len() - i,
    {
        if a[i].1.1 > best {
            best = a[i].1.1;
        }
        i = i + 1;
    }
    best
}

pub proof fn lemma_take_step(ts: Seq<Task>, i: int, ref_s: Seq<char>, alt_s: Seq<char>)
    requires
        0 <= i < ts.len(),
    ensures
        covered(ts.take(i + 1)) == covered(ts.take(i)) + if is_phi(ts[i]) { 0 } else { ts[i].length as int },
        gather(ts.take(i + 1), ref_s, alt_s) == gather(ts.take(i), ref_s, alt_s) + slice_of(ts[i], ref_s, alt_s),
{
    assert(ts.take(i + 1).drop_last() =~= ts.take(i));
    assert(ts.take(i + 1).last() == ts[i]);
}

pub proof fn lemma_gather_len(ts: Seq<Task>, ref_s: Seq<char>, alt_s: Seq<char>, res_len: int)
    requires
        all_fit(ts, ref_s.len() as int, alt_s.len() as int, res_len),
    ensures
        gather(ts, ref_s, alt_s).len() == covered(ts),
    decreases ts.len(),
{
    if ts.len() > 0 {
        let pre = ts.drop_last();
        assert forall|i: int| 0 <= i < pre.len() implies
            fits(#[trigger] pre[i], ref_s.len() as int, alt_s.len() as int, res_len) by {
            assert(pre[i] == ts[i]);
        }
        lemma_gather_len(pre, ref_s, alt_s, res_len);
        assert(fits(ts[ts.len() - 1], ref_s.len() as int, alt_s.len() as int, res_len));
    }
}

/// Runs the tasks one after the other on the result buffer.
fn run_tasks(ts: &Vec<Task>, res: &mut Vec<char>, ref_s: &Vec<char>, alt_s: &Vec<char>)
    requires
        all_fit(ts@, ref_s@.len() as int, alt_s@.len() as int, old(res)@.len() as int),
        laid_out(ts@),
        covered(ts@) == old(res)@.len(),
    ensures
        final(res)@ == gather(ts@, ref_s@, alt_s@),
{
    let n = ts.len();
    let ghost total = res@.len();
    let mut i: usize = 0;
    while i < n
        invariant
            n == ts@.len(),
            i <= n,
            all_fit(ts@, ref_s@.len() as int, alt_s@.len() as int, total as int),
            laid_out(ts@),
            covered(ts@) == total,
            res@.len() == total,
            0 <= covered(ts@.take(i as int)) <= total,
            gather(ts@.take(i as int), ref_s@, alt_s@).len() == covered(ts@.take(i as int)),
            forall|k: int| 0 <= k < covered(ts@.take(i as int)) ==>
                #[trigger] res@[k] == gather(ts@.take(i as int), ref_s@, alt_s@)[k],
        decreases n - i,
    {
        let t = ts[i];
        proof {
            lemma_take_step(ts@, i as int, ref_s@, alt_s@);
            assert(fits(ts@[i as int], ref_s@.len() as int, alt_s@.len() as int, total as int));
        }
        let ghost before = res@;
        let ghost g = gather(ts@.take(i as int), ref_s@, alt_s@);
        t.execute(res, ref_s, alt_s);
        proof {
            let g2 = gather(ts@.take(i as int + 1), ref_s@, alt_s@);
            assert forall|k: int| 0 <= k < covered(ts@.take(i as int + 1)) implies #[trigger] res@[k] == g2[k] by {
                if k < covered(ts@.take(i as int)) {
                    assert(g2[k] == g[k]);
                }
            }
        }
        i = i + 1;
    }
    assert(ts@.take(n as int) =~= ts@);
    assert(res@ =~= gather(ts@, ref_s@, alt_s@));
}

/// Runs the task columns on the result buffer, one task index after the other,
/// as a data-parallel device runs one per thread.
fn run_columns(code: &Vec<usize>, start: &Vec<usize>, len: &Vec<usize>, start_res: &Vec<usize>,
    res: &mut Vec<char>, ref_s: &Vec<char>, alt_s: &Vec<char>, Ghost(ts): Ghost<Seq<Task>>)
    requires
        columns_of(ts, code@, start@, len@, start_res@),
        all_fit(ts, ref_s@.len() as int, alt_s@.len() as int, old(res)@.len() as int),
        laid_out(ts),
        covered(ts) == old(res)@.len(),
    ensures
        final(res)@ == gather(ts, ref_s@, alt_s@),
{
    let n = code.len();
    let mut tasks: Vec<Task> = Vec::new();
    let mut i: usize = 0;
    while i < n
        invariant
            n == ts.len(),
            i <= n,
            columns_of(ts, code@, start@, len@, start_res@),
            tasks@ == ts.take(i as int),
        decreases n - i,
    {
        let t = Task { exe_code: code[i] as u8, start_pos: start[i], length: len[i], start_pos_res: start_res[i] };
        assert(t == ts[i as int]);
        tasks.push(t);
        i = i + 1;
        assert(tasks@ =~= ts.take(i as int));
    }
    assert(ts.take(n as int) =~= ts);
    run_tasks(&tasks, res, ref_s, alt_s);
}

/// Between two non-empty tasks with only empty ones in between, the second
/// starts in the result where the first ends.
pub proof fn lemma_monotone_layout(ts: Seq<Task>, i: int, j: int)
    requires
        laid_out(ts),
        0 <= i < j < ts.len(),
        !is_phi(ts[i]),
        !is_phi(ts[j]),
        forall|k: int| i < k < j ==> is_phi(#[trigger] ts[k]),
    ensures
        ts[j].start_pos_res == ts[i].start_pos_res + ts[i].length,
{
    assert(ts[i].start_pos_res == covered(ts.take(i)));
    assert(ts.take(i + 1).drop_last() =~= ts.take(i));
    lemma_phi_run(ts, i, j);
    assert(ts[j].start_pos_res == covered(ts.take(j)));
}

proof fn lemma_phi_run(ts: Seq<Task>, i: int, k: int)
    requires
        0 <= i < k <= ts.len(),
        forall|m: int| i < m < k ==> is_phi(#[trigger] ts[m]),
    ensures
        covered(ts.take(k)) == covered(ts.take(i + 1)),
    decreases k - i,
{
    if k > i + 1 {
        lemma_phi_run(ts, i, k - 1);
        assert(ts.take(k).drop_last() =~= ts.take(k - 1));
        assert(is_phi(ts[k - 1]));
    }
}

/// The sum of the lengths of the non-empty tasks of a well-formed program is the
/// length of its result buffer, and every task stays inside its arena.
pub proof fn lemma_density_and_containment(g: GIR)
    requires
        g.wf(),
    ensures
        covered(g.g_rep@) == g.res_array@.len(),
        forall|i: int| 0 <= i < g.g_rep@.len() && !is_phi(#[trigger] g.g_rep@[i]) ==>
            g.g_rep@[i].start_pos + g.g_rep@[i].length <= (if g.g_rep@[i].exe_code == 0 {
                g.ref_stream@.len() } else { g.alt_stream@.len() })
            && g.g_rep@[i].start_pos_res + g.g_rep@[i].length <= g.res_array@.len(),
{
    assert forall|i: int| 0 <= i < g.g_rep@.len() && !is_phi(#[trigger] g.g_rep@[i]) implies
        g.g_rep@[i].start_pos + g.g_rep@[i].length <= (if g.g_rep@[i].exe_code == 0 {
            g.ref_stream@.len() } else { g.alt_stream@.len() })
        && g.g_rep@[i].start_pos_res + g.g_rep@[i].length <= g.res_array@.len() by {
        assert(fits(g.g_rep@[i], g.ref_stream@.len() as int, g.alt_stream@.len() as int, g.res_array@.len() as int));
    }
}

} // verus!
