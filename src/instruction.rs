use vstd::prelude::*;
use crate::mutation::{payload, MutatedString, Mutation, MutationType};

verus! {

/// One lowered edit: a one-letter opcode, whether it came from a `*`-form call,
/// its 0-based positions in the reference and in the result, its length and the
/// residues it carries.
#[derive(Debug, Clone, PartialEq)]
pub struct Instruction {
    pub code: char,
    pub s_state: bool,
    pub pos_ref: usize,
    pub pos_res: usize,
    pub len: usize,
    pub data: Vec<char>,
}

/// The mathematical value of an instruction.
pub struct InstructionView {
    pub code: char,
    pub s_state: bool,
    pub pos_ref: int,
    pub pos_res: int,
    pub len: int,
    pub data: Seq<char>,
}

impl View for Instruction {
    type V = InstructionView;

    open spec fn view(&self) -> InstructionView {
        InstructionView {
            code: self.code,
            s_state: self.s_state,
            pos_ref: self.pos_ref as int,
            pos_res: self.pos_res as int,
            len: self.len as int,
            data: self.data@,
        }
    }
}

/// The empty instruction, which is dropped before tasks are emitted.
pub open spec fn phi_view() -> InstructionView {
    InstructionView { code: 'E', s_state: false, pos_ref: 0, pos_res: 0, len: 0, data: Seq::empty() }
}

/// An unstarred instruction at the mutation's positions.
pub open spec fn at_mutation(code: char, m: Mutation, len: int, data: Seq<char>) -> InstructionView {
    InstructionView {
        code,
        s_state: false,
        pos_ref: m.mut_info.ref_aa_position as int,
        pos_res: m.mut_info.mut_aa_position as int,
        len,
        data,
    }
}

/// `x` with a new opcode, unless `x` is the empty instruction.
pub open spec fn recoded(x: InstructionView, code: char) -> InstructionView {
    if x.code == 'E' {
        x
    } else {
        InstructionView { code, s_state: x.s_state, pos_ref: x.pos_ref, pos_res: x.pos_res, len: x.len, data: x.data }
    }
}

/// `x` marked as a `*`-form with a new opcode, unless `x` is the empty instruction.
pub open spec fn starred(x: InstructionView, code: char) -> InstructionView {
    if x.code == 'E' {
        x
    } else {
        InstructionView { code, s_state: true, pos_ref: x.pos_ref, pos_res: x.pos_res, len: x.len, data: x.data }
    }
}

/// Whether a mutation ends translation early: a stop gain, a frameshift, or an
/// insertion or deletion whose mutated side is the stop alone.
pub open spec fn ends_translation(m: Mutation) -> bool {
    ||| m.mut_type == MutationType::StopGained
    ||| m.mut_type == MutationType::FrameShift
    ||| m.mut_type == MutationType::SStopGained
    ||| ((m.mut_type == MutationType::InframeInsertion || m.mut_type == MutationType::InframeDeletion)
        && m.mut_info.mut_aa is NotSeq)
}

/// Whether, among the mutations that come before the first one at result
/// position `p`, one ends translation early.
pub open spec fn asterisk_blocked(prior: Seq<Mutation>, p: u16) -> bool
    decreases prior.len(),
{
    if prior.len() == 0 {
        false
    } else if prior[0].mut_info.mut_aa_position == p {
        false
    } else if ends_translation(prior[0]) {
        true
    } else {
        asterisk_blocked(prior.subrange(1, prior.len() as int), p)
    }
}

pub open spec fn lower_missense(m: Mutation) -> InstructionView {
    match payload(m.mut_info.mut_aa) {
        Some(d) => at_mutation('M', m, 1, d),
        None => phi_view(),
    }
}

pub open spec fn lower_stop_gained(m: Mutation) -> InstructionView {
    at_mutation('G', m, 0, Seq::empty())
}

pub open spec fn lower_inframe_insertion(m: Mutation) -> InstructionView {
    match payload(m.mut_info.mut_aa) {
        Some(d) => at_mutation('I', m, d.len() as int, d),
        None => lower_stop_gained(m),
    }
}

pub open spec fn lower_inframe_deletion(m: Mutation) -> InstructionView {
    match (payload(m.mut_info.ref_aa), payload(m.mut_info.mut_aa)) {
        (Some(r), Some(d)) => if d.len() <= r.len() {
            at_mutation('D', m, r.len() - d.len(), d)
        } else {
            phi_view()
        },
        _ => lower_stop_gained(m),
    }
}

pub open spec fn lower_frameshift(m: Mutation) -> InstructionView {
    match payload(m.mut_info.mut_aa) {
        Some(d) => at_mutation('F', m, d.len() as int, d),
        None => phi_view(),
    }
}

pub open spec fn lower_stop_lost(m: Mutation) -> InstructionView {
    match payload(m.mut_info.mut_aa) {
        Some(d) => at_mutation('L', m, d.len() as int, d),
        None => phi_view(),
    }
}

pub open spec fn lower_start_lost() -> InstructionView {
    InstructionView { code: '0', s_state: false, pos_ref: 0, pos_res: 0, len: 0, data: Seq::empty() }
}

pub open spec fn lower_s_frameshift(m: Mutation, blocked: bool) -> InstructionView {
    if blocked {
        phi_view()
    } else if m.mut_info.mut_aa is NotSeq {
        lower_stop_gained(m)
    } else {
        starred(lower_frameshift(m), 'R')
    }
}

/// A substitution inside an altered frame: `2` when both sides have the same
/// length, `3` otherwise.
pub open spec fn lower_substitution(m: Mutation) -> InstructionView {
    match (payload(m.mut_info.ref_aa), payload(m.mut_info.mut_aa)) {
        (Some(r), Some(d)) => InstructionView {
            code: if d.len() == r.len() { '2' } else { '3' },
            s_state: false,
            pos_ref: m.mut_info.ref_aa_position as int,
            pos_res: m.mut_info.mut_aa_position as int,
            len: r.len() as int,
            data: d,
        },
        (_, None) => recoded(lower_frameshift(m), 'Y'),
        _ => phi_view(),
    }
}

/// Whether a `*`-form call at `m` is voided by an earlier mutation.
pub open spec fn blocked_at(m: Mutation, all: Seq<Mutation>) -> bool {
    asterisk_blocked(all, m.mut_info.mut_aa_position)
}

pub open spec fn lower_s_missense(m: Mutation, all: Seq<Mutation>) -> InstructionView {
    if blocked_at(m, all) { phi_view() } else { starred(lower_missense(m), 'N') }
}

pub open spec fn lower_s_inframe_insertion(m: Mutation, all: Seq<Mutation>) -> InstructionView {
    if blocked_at(m, all) { phi_view() } else { starred(lower_inframe_insertion(m), 'J') }
}

pub open spec fn lower_s_inframe_deletion(m: Mutation, all: Seq<Mutation>) -> InstructionView {
    if blocked_at(m, all) { phi_view() } else { starred(lower_inframe_deletion(m), 'C') }
}

pub open spec fn lower_s_stop_gained(m: Mutation, all: Seq<Mutation>) -> InstructionView {
    if blocked_at(m, all) { phi_view() } else { starred(lower_stop_gained(m), 'X') }
}

pub open spec fn lower_s_frameshift_and_stop_retained(m: Mutation, all: Seq<Mutation>) -> InstructionView {
    if m.mut_info.mut_aa is NotSeq {
        if blocked_at(m, all) { phi_view() } else { starred(lower_stop_gained(m), 'Q') }
    } else {
        recoded(lower_s_frameshift(m, blocked_at(m, all)), 'Q')
    }
}

pub open spec fn lower_s_stop_gained_and_inframe_altering(m: Mutation, all: Seq<Mutation>) -> InstructionView {
    if blocked_at(m, all) { phi_view() } else { starred(lower_stop_gained(m), 'A') }
}

/// The instruction that a mutation lowers to, given the mutations of the same
/// haplotype and transcript (sorted by reference position).
pub open spec fn lower(m: Mutation, all: Seq<Mutation>) -> InstructionView {
    let blocked = blocked_at(m, all);
    match m.mut_type {
        MutationType::MisSense => lower_missense(m),
        MutationType::SMisSense => lower_s_missense(m, all),
        MutationType::FrameShift => lower_frameshift(m),
        MutationType::SFrameShift => lower_s_frameshift(m, blocked),
        MutationType::InframeInsertion => lower_inframe_insertion(m),
        MutationType::SInframeInsertion => lower_s_inframe_insertion(m, all),
        MutationType::InframeDeletion => lower_inframe_deletion(m),
        MutationType::SInframeDeletion => lower_s_inframe_deletion(m, all),
        MutationType::StartLost => lower_start_lost(),
        MutationType::StopLost => lower_stop_lost(m),
        MutationType::StopGained => lower_stop_gained(m),
        MutationType::SStopGained => lower_s_stop_gained(m, all),
        MutationType::SMisSenseAndInframeAltering => recoded(lower_s_frameshift(m, blocked), 'K'),
        MutationType::SFrameShiftAndStopRetained => lower_s_frameshift_and_stop_retained(m, all),
        MutationType::SStopGainedAndInframeAltering => lower_s_stop_gained_and_inframe_altering(m, all),
        MutationType::FrameShiftAndStopRetained => recoded(lower_frameshift(m), 'B'),
        MutationType::InframeDeletionAndStopRetained => recoded(lower_stop_gained(m), 'P'),
        MutationType::InframeInsertionAndStopRetained => at_mutation('Z', m, 0, Seq::empty()),
        MutationType::StopGainedAndInframeAltering => recoded(lower_stop_gained(m), 'T'),
        MutationType::StopLostAndFrameShift => recoded(lower_stop_lost(m), 'W'),
        MutationType::MissenseAndInframeAltering => lower_substitution(m),
        MutationType::StartLostAndSpliceRegion => recoded(lower_start_lost(), 'U'),
    }
}

/// Whether a kind is a `*`-form, i.e. called downstream of an earlier nonsense.
pub open spec fn is_starred_kind(t: MutationType) -> bool {
    ||| t == MutationType::SMisSense
    ||| t == MutationType::SInframeInsertion
    ||| t == MutationType::SInframeDeletion
    ||| t == MutationType::SFrameShift
    ||| t == MutationType::SStopGained
    ||| t == MutationType::SMisSenseAndInframeAltering
    ||| t == MutationType::SFrameShiftAndStopRetained
    ||| t == MutationType::SStopGainedAndInframeAltering
}

/// A `*`-form mutation preceded by one that ends translation early lowers to the
/// empty instruction, so it contributes no residue to the result.
pub proof fn lemma_asterisk_suppression(m: Mutation, all: Seq<Mutation>)
    requires
        is_starred_kind(m.mut_type),
        asterisk_blocked(all, m.mut_info.mut_aa_position),
    ensures
        lower(m, all).code == 'E',
        lower(m, all).data.len() == 0,
        lower(m, all).len == 0,
{
}

impl Instruction {
    /// Creates an instruction from its parts.
    pub fn new(code: char, s_state: bool, pos_ref: usize, pos_res: usize, len: usize, data: Vec<char>) -> (r: Self)
        ensures
            r.code == code && r.s_state == s_state && r.pos_ref == pos_ref && r.pos_res == pos_res,
            r.len == len && r.data == data,
    {
        Instruction { code, s_state, pos_ref, pos_res, len, data }
    }

    /// Lowers a mutation to its instruction; `vec_mut` holds the mutations of the
    /// same haplotype and transcript, sorted by reference position.
    pub fn from_mutation(mutation: &Mutation, vec_mut: &Vec<Mutation>) -> (r: Self)
        ensures
            r@ == lower(*mutation, vec_mut@),
    {
        match mutation.mut_type {
            MutationType::MisSense => Instruction::interpret_missense(mutation, vec_mut),
            MutationType::SMisSense => Instruction::interpret_s_missense(mutation, vec_mut),
            MutationType::FrameShift => Instruction::interpret_frameshift(mutation, vec_mut),
            MutationType::SFrameShift => Instruction::interpret_s_frameshift(mutation, vec_mut),
            MutationType::InframeInsertion => Instruction::interpret_inframe_insertion(mutation, vec_mut),
            MutationType::SInframeInsertion => Instruction::interpret_s_inframe_insertion(mutation, vec_mut),
            MutationType::InframeDeletion => Instruction::interpret_inframe_deletion(mutation, vec_mut),
            MutationType::SInframeDeletion => Instruction::interpret_s_inframe_deletion(mutation, vec_mut),
            MutationType::StartLost => Instruction::interpret_start_lost(mutation, vec_mut),
            MutationType::StopLost => Instruction::interpret_stop_lost(mutation, vec_mut),
            MutationType::StopGained => Instruction::interpret_stop_gained(mutation, vec_mut),
            MutationType::SStopGained => Instruction::interpret_s_stop_gained(mutation, vec_mut),
            MutationType::SMisSenseAndInframeAltering =>
                Instruction::interpret_s_missense_and_inframe_altering(mutation, vec_mut),
            MutationType::SFrameShiftAndStopRetained =>
                Instruction::interpret_s_frameshift_and_stop_retained(mutation, vec_mut),
            MutationType::SStopGainedAndInframeAltering =>
                Instruction::interpret_s_stop_gained_and_inframe_altering(mutation, vec_mut),
            MutationType::FrameShiftAndStopRetained =>
                Instruction::interpret_frameshift_and_stop_retained(mutation, vec_mut),
            MutationType::InframeDeletionAndStopRetained =>
                Instruction::interpret_inframe_deletion_and_stop_retained(mutation, vec_mut),
            MutationType::InframeInsertionAndStopRetained =>
                Instruction::interpret_inframe_insertion_and_stop_retained(mutation, vec_mut),
            MutationType::StopGainedAndInframeAltering =>
                Instruction::interpret_stop_gained_and_inframe_altering(mutation, vec_mut),
            MutationType::StopLostAndFrameShift => Instruction::interpret_stop_lost_and_frameshift(mutation, vec_mut),
            MutationType::MissenseAndInframeAltering =>
                Instruction::interpret_missense_and_inframe_altering(mutation, vec_mut),
            MutationType::StartLostAndSpliceRegion =>
                Instruction::interpret_start_lost_and_splice_region(mutation, vec_mut),
        }
    }

    pub fn get_code(&self) -> (r: char)
        ensures r == self.code,
    {
        self.code
    }

    pub fn get_position_ref(&self) -> (r: usize)
        ensures r == self.pos_ref,
    {
        self.pos_ref
    }

    pub fn get_position_res(&self) -> (r: usize)
        ensures r == self.pos_res,
    {
        self.pos_res
    }

    pub fn get_length(&self) -> (r: usize)
        ensures r == self.len,
    {
        self.len
    }

    /// A copy of the residues the instruction carries.
    pub fn get_data(&self) -> (r: Vec<char>)
        ensures r@ == self.data@,
    {
        let mut out: Vec<char> = Vec::new();
        let mut i: usize = 0;
        while i < self.data.len()
            invariant
                i <= self.data@.len(),
                out@ == self.data@.subrange(0, i as int),
            decreases self.data.len() - i,
        {
            out.push(self.data[i]);
            i = i + 1;
            assert(out@ =~= self.data@.subrange(0, i as int));
        }
        assert(self.data@.subrange(0, self.data@.len() as int) =~= self.data@);
        out
    }

    pub fn get_s_state(&self) -> (r: bool)
        ensures r == self.s_state,
    {
        self.s_state
    }

    pub fn update_code(&mut self, code: char)
        ensures
            final(self)@ == (InstructionView { code, ..old(self)@ }),
    {
        self.code = code;
    }

    pub fn update_s_state(&mut self, s_state: bool)
        ensures
            final(self)@ == (InstructionView { s_state, ..old(self)@ }),
    {
        self.s_state = s_state;
    }

    /// Sets the position of the instruction in the result.
    pub fn update_start_pos(&mut self, start_pos: usize)
        ensures
            final(self)@ == (InstructionView { pos_res: start_pos as int, ..old(self)@ }),
    {
        self.pos_res = start_pos;
    }

    fn generate_phi_instruction() -> (r: Self)
        ensures r@ == phi_view(),
    {
        Instruction { code: 'E', s_state: false, pos_ref: 0, pos_res: 0, len: 0, data: Vec::new() }
    }

    fn at_mutation(code: char, mutation: &Mutation, len: usize, data: Vec<char>) -> (r: Self)
        ensures r@ == at_mutation(code, *mutation, len as int, data@),
    {
        Instruction {
            code,
            s_state: false,
            pos_ref: mutation.mut_info.ref_aa_position as usize,
            pos_res: mutation.mut_info.mut_aa_position as usize,
            len,
            data,
        }
    }

    fn recoded(mut ins: Self, code: char) -> (r: Self)
        ensures r@ == recoded(ins@, code),
    {
        if ins.code != 'E' {
            ins.update_code(code);
        }
        ins
    }

    fn starred(mut ins: Self, code: char) -> (r: Self)
        ensures r@ == starred(ins@, code),
    {
        if ins.code != 'E' {
            ins.update_code(code);
            ins.update_s_state(true);
        }
        ins
    }

    /// A missense: one residue replaced (empty when the mutated side is the stop alone).
    pub fn interpret_missense(mutation: &Mutation, _vec_mut: &Vec<Mutation>) -> (r: Self)
        ensures r@ == lower_missense(*mutation),
    {
        match mutation.mut_info.mut_aa.residues() {
            Some(d) => Instruction::at_mutation('M', mutation, 1, d),
            None => Instruction::generate_phi_instruction(),
        }
    }

    /// A `*`-form missense (`N`), empty when voided by an earlier mutation.
    pub fn interpret_s_missense(mutation: &Mutation, vec_mut: &Vec<Mutation>) -> (r: Self)
        ensures r@ == lower_s_missense(*mutation, vec_mut@),
    {
        if !Instruction::validate_s_state(mutation, vec_mut) {
            Instruction::generate_phi_instruction()
        } else {
            Instruction::starred(Instruction::interpret_missense(mutation, vec_mut), 'N')
        }
    }

    /// A stop gain: the rest of the reference is dropped.
    pub fn interpret_stop_gained(mutation: &Mutation, _vec_mut: &Vec<Mutation>) -> (r: Self)
        ensures r@ == lower_stop_gained(*mutation),
    {
        Instruction::at_mutation('G', mutation, 0, Vec::new())
    }

    /// A `*`-form stop gain (`X`), empty when voided by an earlier mutation.
    pub fn interpret_s_stop_gained(mutation: &Mutation, vec_mut: &Vec<Mutation>) -> (r: Self)
        ensures r@ == lower_s_stop_gained(*mutation, vec_mut@),
    {
        if !Instruction::validate_s_state(mutation, vec_mut) {
            Instruction::generate_phi_instruction()
        } else {
            Instruction::starred(Instruction::interpret_stop_gained(mutation, vec_mut), 'X')
        }
    }

    /// An insertion: one residue replaced by the mutated residues; a stop gain
    /// when the mutated side is the stop alone.
    pub fn interpret_inframe_insertion(mutation: &Mutation, vec_mut: &Vec<Mutation>) -> (r: Self)
        ensures r@ == lower_inframe_insertion(*mutation),
    {
        match mutation.mut_info.mut_aa.residues() {
            Some(d) => {
                let n = d.len();
                Instruction::at_mutation('I', mutation, n, d)
            },
            None => Instruction::interpret_stop_gained(mutation, vec_mut),
        }
    }

    /// A `*`-form insertion (`J`), empty when voided by an earlier mutation.
    pub fn interpret_s_inframe_insertion(mutation: &Mutation, vec_mut: &Vec<Mutation>) -> (r: Self)
        ensures r@ == lower_s_inframe_insertion(*mutation, vec_mut@),
    {
        if !Instruction::validate_s_state(mutation, vec_mut) {
            Instruction::generate_phi_instruction()
        } else {
            Instruction::starred(Instruction::interpret_inframe_insertion(mutation, vec_mut), 'J')
        }
    }

    /// A deletion: the length is how many residues the change removes; a stop
    /// gain when a side is the stop alone, empty when the mutated side is longer.
    pub fn interpret_inframe_deletion(mutation: &Mutation, vec_mut: &Vec<Mutation>) -> (r: Self)
        ensures r@ == lower_inframe_deletion(*mutation),
    {
        let r = mutation.mut_info.ref_aa.residues();
        let d = mutation.mut_info.mut_aa.residues();
        match (r, d) {
            (Some(r), Some(d)) => if d.len() <= r.len() {
                let n = r.len() - d.len();
                Instruction::at_mutation('D', mutation, n, d)
            } else {
                Instruction::generate_phi_instruction()
            },
            _ => Instruction::interpret_stop_gained(mutation, vec_mut),
        }
    }

    /// A `*`-form deletion (`C`), empty when voided by an earlier mutation.
    pub fn interpret_s_inframe_deletion(mutation: &Mutation, vec_mut: &Vec<Mutation>) -> (r: Self)
        ensures r@ == lower_s_inframe_deletion(*mutation, vec_mut@),
    {
        if !Instruction::validate_s_state(mutation, vec_mut) {
            Instruction::generate_phi_instruction()
        } else {
            Instruction::starred(Instruction::interpret_inframe_deletion(mutation, vec_mut), 'C')
        }
    }

    /// A frameshift: the reference tail is replaced by the mutated residues.
    pub fn interpret_frameshift(mutation: &Mutation, _vec_mut: &Vec<Mutation>) -> (r: Self)
        ensures r@ == lower_frameshift(*mutation),
    {
        match mutation.mut_info.mut_aa.residues() {
            Some(d) => {
                let n = d.len();
                Instruction::at_mutation('F', mutation, n, d)
            },
            None => Instruction::generate_phi_instruction(),
        }
    }

    /// A `*`-form frameshift (`R`); a stop gain when the mutated side is the stop
    /// alone; empty when voided by an earlier mutation.
    pub fn interpret_s_frameshift(mutation: &Mutation, vec_mut: &Vec<Mutation>) -> (r: Self)
        ensures r@ == lower_s_frameshift(*mutation, blocked_at(*mutation, vec_mut@)),
    {
        let blocked = !Instruction::validate_s_state(mutation, vec_mut);
        Instruction::s_frameshift(mutation, blocked)
    }

    fn s_frameshift(mutation: &Mutation, blocked: bool) -> (r: Self)
        ensures r@ == lower_s_frameshift(*mutation, blocked),
    {
        if blocked {
            Instruction::generate_phi_instruction()
        } else {
            match mutation.mut_info.mut_aa {
                MutatedString::NotSeq => Instruction::at_mutation('G', mutation, 0, Vec::new()),
                _ => {
                    let f = match mutation.mut_info.mut_aa.residues() {
                        Some(d) => {
                            let n = d.len();
                            Instruction::at_mutation('F', mutation, n, d)
                        },
                        None => Instruction::generate_phi_instruction(),
                    };
                    Instruction::starred(f, 'R')
                },
            }
        }
    }

    /// A stop loss: the mutated residues are appended past the former stop.
    pub fn interpret_stop_lost(mutation: &Mutation, _vec_mut: &Vec<Mutation>) -> (r: Self)
        ensures r@ == lower_stop_lost(*mutation),
    {
        match mutation.mut_info.mut_aa.residues() {
            Some(d) => {
                let n = d.len();
                Instruction::at_mutation('L', mutation, n, d)
            },
            None => Instruction::generate_phi_instruction(),
        }
    }

    /// A start loss (`0`): the whole transcript is dropped.
    pub fn interpret_start_lost(_mutation: &Mutation, _vec_mut: &Vec<Mutation>) -> (r: Self)
        ensures r@ == lower_start_lost(),
    {
        Instruction { code: '0', s_state: false, pos_ref: 0, pos_res: 0, len: 0, data: Vec::new() }
    }

    /// `*missense&inframe_altering` (`K`): lowered as a `*`-form frameshift.
    pub fn interpret_s_missense_and_inframe_altering(mutation: &Mutation, vec_mut: &Vec<Mutation>) -> (r: Self)
        ensures r@ == recoded(lower_s_frameshift(*mutation, blocked_at(*mutation, vec_mut@)), 'K'),
    {
        Instruction::recoded(Instruction::interpret_s_frameshift(mutation, vec_mut), 'K')
    }

    /// `*frameshift&stop_retained` (`Q`): a `*`-form frameshift that keeps the stop.
    pub fn interpret_s_frameshift_and_stop_retained(mutation: &Mutation, vec_mut: &Vec<Mutation>) -> (r: Self)
        ensures r@ == lower_s_frameshift_and_stop_retained(*mutation, vec_mut@),
    {
        match mutation.mut_info.mut_aa {
            MutatedString::NotSeq => if !Instruction::validate_s_state(mutation, vec_mut) {
                Instruction::generate_phi_instruction()
            } else {
                Instruction::starred(Instruction::interpret_stop_gained(mutation, vec_mut), 'Q')
            },
            _ => Instruction::recoded(Instruction::interpret_s_frameshift(mutation, vec_mut), 'Q'),
        }
    }

    /// `*stop_gained&inframe_altering` (`A`): lowered as a `*`-form stop gain.
    pub fn interpret_s_stop_gained_and_inframe_altering(mutation: &Mutation, vec_mut: &Vec<Mutation>) -> (r: Self)
        ensures r@ == lower_s_stop_gained_and_inframe_altering(*mutation, vec_mut@),
    {
        if !Instruction::validate_s_state(mutation, vec_mut) {
            Instruction::generate_phi_instruction()
        } else {
            Instruction::starred(Instruction::interpret_stop_gained(mutation, vec_mut), 'A')
        }
    }

    /// `frameshift&stop_retained` (`B`): lowered as a frameshift.
    pub fn interpret_frameshift_and_stop_retained(mutation: &Mutation, vec_mut: &Vec<Mutation>) -> (r: Self)
        ensures r@ == recoded(lower_frameshift(*mutation), 'B'),
    {
        Instruction::recoded(Instruction::interpret_frameshift(mutation, vec_mut), 'B')
    }

    /// `inframe_deletion&stop_retained` (`P`): lowered as a stop gain.
    pub fn interpret_inframe_deletion_and_stop_retained(mutation: &Mutation, vec_mut: &Vec<Mutation>) -> (r: Self)
        ensures r@ == recoded(lower_stop_gained(*mutation), 'P'),
    {
        Instruction::recoded(Instruction::interpret_stop_gained(mutation, vec_mut), 'P')
    }

    /// `inframe_insertion&stop_retained` (`Z`): writes nothing, keeps the reference.
    pub fn interpret_inframe_insertion_and_stop_retained(mutation: &Mutation, _vec_mut: &Vec<Mutation>) -> (r: Self)
        ensures r@ == at_mutation('Z', *mutation, 0, Seq::empty()),
    {
        Instruction::at_mutation('Z', mutation, 0, Vec::new())
    }

    /// `stop_gained&inframe_altering` (`T`): lowered as a stop gain.
    pub fn interpret_stop_gained_and_inframe_altering(mutation: &Mutation, vec_mut: &Vec<Mutation>) -> (r: Self)
        ensures r@ == recoded(lower_stop_gained(*mutation), 'T'),
    {
        Instruction::recoded(Instruction::interpret_stop_gained(mutation, vec_mut), 'T')
    }

    /// `stop_lost&frameshift` (`W`): lowered as a stop loss.
    pub fn interpret_stop_lost_and_frameshift(mutation: &Mutation, vec_mut: &Vec<Mutation>) -> (r: Self)
        ensures r@ == recoded(lower_stop_lost(*mutation), 'W'),
    {
        Instruction::recoded(Instruction::interpret_stop_lost(mutation, vec_mut), 'W')
    }

    /// `missense&inframe_altering`: a substitution (`2` or `3`), or `Y` as a
    /// frameshift when the mutated side is the stop alone.
    pub fn interpret_missense_and_inframe_altering(mutation: &Mutation, vec_mut: &Vec<Mutation>) -> (r: Self)
        ensures r@ == lower_substitution(*mutation),
    {
        let r = mutation.mut_info.ref_aa.residues();
        let d = mutation.mut_info.mut_aa.residues();
        match (r, d) {
            (Some(r), Some(d)) => {
                let code = if d.len() == r.len() { '2' } else { '3' };
                Instruction {
                    code,
                    s_state: false,
                    pos_ref: mutation.mut_info.ref_aa_position as usize,
                    pos_res: mutation.mut_info.mut_aa_position as usize,
                    len: r.len(),
                    data: d,
                }
            },
            (_, None) => Instruction::recoded(Instruction::interpret_frameshift(mutation, vec_mut), 'Y'),
            _ => Instruction::generate_phi_instruction(),
        }
    }

    /// `start_lost&splice_region` (`U`): lowered as a start loss.
    pub fn interpret_start_lost_and_splice_region(mutation: &Mutation, vec_mut: &Vec<Mutation>) -> (r: Self)
        ensures r@ == recoded(lower_start_lost(), 'U'),
    {
        Instruction::recoded(Instruction::interpret_start_lost(mutation, vec_mut), 'U')
    }

    /// True when no mutation before the first one at the same result position
    /// ends translation early, i.e. a `*`-form call here still applies.
    pub fn validate_s_state(mutation: &Mutation, vec_mut: &Vec<Mutation>) -> (r: bool)
        ensures r == !asterisk_blocked(vec_mut@, mutation.mut_info.mut_aa_position),
    {
        let p = mutation.mut_info.mut_aa_position;
        let n = vec_mut.len();
        let mut i: usize = 0;
        assert(vec_mut@.subrange(0, n as int) =~= vec_mut@);
        while i < n
            invariant
                i <= n == vec_mut@.len(),
                p == mutation.mut_info.mut_aa_position,
                asterisk_blocked(vec_mut@, p) == asterisk_blocked(vec_mut@.subrange(i as int, n as int), p),
            decreases n - i,
        {
            let ghost rest = vec_mut@.subrange(i as int, n as int);
            assert(rest.subrange(1, rest.len() as int) =~= vec_mut@.subrange(i as int + 1, n as int));
            assert(rest[0] == vec_mut@[i as int]);
            let m = &vec_mut[i];
            if m.mut_info.mut_aa_position == p {
                assert(!asterisk_blocked(rest, p));
                return true;
            }
            let ends = match m.mut_type {
                MutationType::StopGained | MutationType::FrameShift | MutationType::SStopGained => true,
                MutationType::InframeInsertion | MutationType::InframeDeletion => match m.mut_info.mut_aa {
                    MutatedString::NotSeq => true,
                    _ => false,
                },
                _ => false,
            };
            assert(ends == ends_translation(rest[0]));
            assert(asterisk_blocked(rest, p) == (ends || asterisk_blocked(rest.subrange(1, rest.len() as int), p)));
            if ends {
                return false;
            }
            i = i + 1;
        }
        true
    }
}

} // verus!
