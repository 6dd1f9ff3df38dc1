use vstd::prelude::*;

verus! {

/// One slice copy: `length` characters from position `start_pos` of stream
/// `exe_code` (0 the reference, 1 the alternative arena, 2 nothing) into the
/// result at `start_pos_res`.
#[derive(Debug, Clone, Copy, PartialEq, Eq, Structural)]
pub struct Task {
    pub exe_code: u8,
    pub start_pos: usize,
    pub length: usize,
    pub start_pos_res: usize,
}

/// Whether a task copies nothing.
pub open spec fn is_phi(t: Task) -> bool {
    t.exe_code != 0 && t.exe_code != 1
}

/// The stream a task reads from.
pub open spec fn source(t: Task, ref_s: Seq<char>, alt_s: Seq<char>) -> Seq<char> {
    if t.exe_code == 0 { ref_s } else { alt_s }
}

/// Whether a task reads and writes inside its stream and the result.
pub open spec fn fits(t: Task, ref_len: int, alt_len: int, res_len: int) -> bool {
    is_phi(t) || {
        &&& t.start_pos + t.length <= (if t.exe_code == 0 { ref_len } else { alt_len })
        &&& t.start_pos_res + t.length <= res_len
    }
}

/// The characters a task copies.
pub open spec fn slice_of(t: Task, ref_s: Seq<char>, alt_s: Seq<char>) -> Seq<char> {
    if is_phi(t) {
        Seq::empty()
    } else {
        source(t, ref_s, alt_s).subrange(t.start_pos as int, t.start_pos + t.length)
    }
}

/// `dst` after the task has copied its slice into it.
pub open spec fn applied(t: Task, dst: Seq<char>, ref_s: Seq<char>, alt_s: Seq<char>) -> Seq<char> {
    if is_phi(t) {
        dst
    } else {
        Seq::new(dst.len(), |k: int|
            if t.start_pos_res <= k < t.start_pos_res + t.length {
                source(t, ref_s, alt_s)[t.start_pos + (k - t.start_pos_res)]
            } else {
                dst[k]
            })
    }
}

impl Task {
    pub fn new(exe_code: u8, start_pos: usize, length: usize, start_pos_res: usize) -> (r: Self)
        ensures
            r == (Task { exe_code, start_pos, length, start_pos_res }),
    {
        Task { exe_code, start_pos, length, start_pos_res }
    }

    /// Copies the task's slice into the result; a task of stream 2 copies nothing.
    pub fn execute(&self, results_tape: &mut Vec<char>, ref_tape: &Vec<char>, alt_tape: &Vec<char>)
        requires
            fits(*self, ref_tape@.len() as int, alt_tape@.len() as int, old(results_tape)@.len() as int),
        ensures
            final(results_tape)@ == applied(*self, old(results_tape)@, ref_tape@, alt_tape@),
    {
        if self.exe_code != 0 && self.exe_code != 1 {
            return;
        }
        let src: &Vec<char> = if self.exe_code == 0 { ref_tape } else { alt_tape };
        let ghost before = results_tape@;
        let n_src = src.len();
        let n_res = results_tape.len();
        let mut i: usize = 0;
        while i < self.length
            invariant
                src@ == source(*self, ref_tape@, alt_tape@),
                i <= self.length,
                n_src == src@.len(),
                n_res == before.len(),
                self.start_pos + self.length <= src@.len(),
                self.start_pos_res + self.length <= before.len(),
                results_tape@.len() == before.len(),
                forall|k: int| 0 <= k < before.len() ==> #[trigger] results_tape@[k] == (
                    if self.start_pos_res <= k < self.start_pos_res + i {
                        src@[self.start_pos + (k - self.start_pos_res)]
                    } else {
                        before[k]
                    }),
            decreases self.length - i,
        {
            let c = src[self.start_pos + i];
            results_tape.set(self.start_pos_res + i, c);
            i = i + 1;
        }
        assert(results_tape@ =~= applied(*self, before, ref_tape@, alt_tape@));
    }

    pub fn get_length(&self) -> (r: usize)
        ensures r == self.length,
    {
        self.length
    }

    pub fn get_start_pos_res(&self) -> (r: usize)
        ensures r == self.start_pos_res,
    {
        self.start_pos_res
    }

    pub fn get_execution_stream(&self) -> (r: &u8)
        ensures *r == self.exe_code,
    {
        &self.exe_code
    }

    pub fn get_stream(&self) -> (r: u8)
        ensures r == self.exe_code,
    {
        self.exe_code
    }

    pub fn get_start_pos(self) -> (r: usize)
        ensures r == self.start_pos,
    {
        self.start_pos
    }

    /// Moves the start in the source stream by `num`.
    pub fn shift_start_pos_stream(&mut self, num: &usize)
        requires
            old(self).start_pos + *num <= usize::MAX,
        ensures
            *final(self) == (Task { start_pos: (old(self).start_pos + *num) as usize, ..*old(self) }),
    {
        self.start_pos = self.start_pos + *num;
    }

    /// Moves the start in the result by `num`.
    pub fn shift_start_pos_res(&mut self, num: &usize)
        requires
            old(self).start_pos_res + *num <= usize::MAX,
        ensures
            *final(self) == (Task { start_pos_res: (old(self).start_pos_res + *num) as usize, ..*old(self) }),
    {
        self.start_pos_res = self.start_pos_res + *num;
    }
}

} // verus!
