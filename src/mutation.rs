use vstd::prelude::*;
use crate::text::{chars_of, count_char, count_in, same_text, string_of};
use crate::parser::{parse_amino_acid_field, aa_field, AaField};

verus! {

/// The consequence kinds that the compiler understands.
#[derive(PartialEq, Eq, Structural, Clone, Copy, Debug)]
pub enum MutationType {
    MisSense,
    InframeInsertion,
    InframeDeletion,
    FrameShift,
    StopGained,
    StopLost,
    SMisSense,
    SInframeInsertion,
    SInframeDeletion,
    SFrameShift,
    SMisSenseAndInframeAltering,
    SFrameShiftAndStopRetained,
    SStopGainedAndInframeAltering,
    FrameShiftAndStopRetained,
    InframeDeletionAndStopRetained,
    InframeInsertionAndStopRetained,
    StopGainedAndInframeAltering,
    StartLost,
    SStopGained,
    StopLostAndFrameShift,
    MissenseAndInframeAltering,
    StartLostAndSpliceRegion,
}

/// The kind named by a consequence string, if it is one of the supported names.
pub open spec fn mutation_type_of(s: Seq<char>) -> Option<MutationType> {
    if s == "missense"@ { Some(MutationType::MisSense) }
    else if s == "*missense"@ { Some(MutationType::SMisSense) }
    else if s == "frameshift"@ { Some(MutationType::FrameShift) }
    else if s == "*frameshift"@ { Some(MutationType::SFrameShift) }
    else if s == "inframe_insertion"@ { Some(MutationType::InframeInsertion) }
    else if s == "*inframe_insertion"@ { Some(MutationType::SInframeInsertion) }
    else if s == "inframe_deletion"@ { Some(MutationType::InframeDeletion) }
    else if s == "*inframe_deletion"@ { Some(MutationType::SInframeDeletion) }
    else if s == "stop_gained"@ { Some(MutationType::StopGained) }
    else if s == "stop_lost"@ { Some(MutationType::StopLost) }
    else if s == "*missense&inframe_altering"@ { Some(MutationType::SMisSenseAndInframeAltering) }
    else if s == "*frameshift&stop_retained"@ { Some(MutationType::SFrameShiftAndStopRetained) }
    else if s == "*stop_gained&inframe_altering"@ { Some(MutationType::SStopGainedAndInframeAltering) }
    else if s == "frameshift&stop_retained"@ { Some(MutationType::FrameShiftAndStopRetained) }
    else if s == "inframe_deletion&stop_retained"@ { Some(MutationType::InframeDeletionAndStopRetained) }
    else if s == "inframe_insertion&stop_retained"@ { Some(MutationType::InframeInsertionAndStopRetained) }
    else if s == "stop_gained&inframe_altering"@ { Some(MutationType::StopGainedAndInframeAltering) }
    else if s == "start_lost"@ { Some(MutationType::StartLost) }
    else if s == "*stop_gained"@ { Some(MutationType::SStopGained) }
    else if s == "stop_lost&frameshift"@ { Some(MutationType::StopLostAndFrameShift) }
    else if s == "missense&inframe_altering"@ { Some(MutationType::MissenseAndInframeAltering) }
    else if s == "start_lost&splice_region"@ { Some(MutationType::StartLostAndSpliceRegion) }
    else { None }
}

impl MutationType {
    /// Reads a consequence name; any other text is refused.
    pub fn from_str(input_str: &str) -> (r: Result<MutationType, ()>)
        ensures
            r is Ok <==> mutation_type_of(input_str@) is Some,
            r is Ok ==> r->Ok_0 == mutation_type_of(input_str@)->0,
    {
        if same_text(input_str, "missense") { Ok(MutationType::MisSense) }
        else if same_text(input_str, "*missense") { Ok(MutationType::SMisSense) }
        else if same_text(input_str, "frameshift") { Ok(MutationType::FrameShift) }
        else if same_text(input_str, "*frameshift") { Ok(MutationType::SFrameShift) }
        else if same_text(input_str, "inframe_insertion") { Ok(MutationType::InframeInsertion) }
        else if same_text(input_str, "*inframe_insertion") { Ok(MutationType::SInframeInsertion) }
        else if same_text(input_str, "inframe_deletion") { Ok(MutationType::InframeDeletion) }
        else if same_text(input_str, "*inframe_deletion") { Ok(MutationType::SInframeDeletion) }
        else if same_text(input_str, "stop_gained") { Ok(MutationType::StopGained) }
        else if same_text(input_str, "stop_lost") { Ok(MutationType::StopLost) }
        else if same_text(input_str, "*missense&inframe_altering") { Ok(MutationType::SMisSenseAndInframeAltering) }
        else if same_text(input_str, "*frameshift&stop_retained") { Ok(MutationType::SFrameShiftAndStopRetained) }
        else if same_text(input_str, "*stop_gained&inframe_altering") { Ok(MutationType::SStopGainedAndInframeAltering) }
        else if same_text(input_str, "frameshift&stop_retained") { Ok(MutationType::FrameShiftAndStopRetained) }
        else if same_text(input_str, "inframe_deletion&stop_retained") { Ok(MutationType::InframeDeletionAndStopRetained) }
        else if same_text(input_str, "inframe_insertion&stop_retained") { Ok(MutationType::InframeInsertionAndStopRetained) }
        else if same_text(input_str, "stop_gained&inframe_altering") { Ok(MutationType::StopGainedAndInframeAltering) }
        else if same_text(input_str, "start_lost") { Ok(MutationType::StartLost) }
        else if same_text(input_str, "*stop_gained") { Ok(MutationType::SStopGained) }
        else if same_text(input_str, "stop_lost&frameshift") { Ok(MutationType::StopLostAndFrameShift) }
        else if same_text(input_str, "missense&inframe_altering") { Ok(MutationType::MissenseAndInframeAltering) }
        else if same_text(input_str, "start_lost&splice_region") { Ok(MutationType::StartLostAndSpliceRegion) }
        else { Err(()) }
    }
}

/// One side of an amino-acid change: residues, residues that reach a stop (`*`), or the stop alone.
#[derive(Debug, Clone, PartialEq, Eq)]
pub enum MutatedString {
    Sequence(String),
    EndSequence(String),
    NotSeq,
}

/// `m` is how the non-empty text `s` is classified.
pub open spec fn classified_as(s: Seq<char>, m: MutatedString) -> bool {
    if s == seq!['*'] {
        m is NotSeq
    } else if count_char(s, '*') > 0 {
        m matches MutatedString::EndSequence(x) && x@ == s
    } else {
        m matches MutatedString::Sequence(x) && x@ == s
    }
}

/// The residues that a side carries: the text without its final character for a
/// sequence that reaches a stop, nothing for the stop alone.
pub open spec fn payload(m: MutatedString) -> Option<Seq<char>> {
    match m {
        MutatedString::Sequence(x) => Some(x@),
        MutatedString::EndSequence(x) => Some(if x@.len() > 0 { x@.drop_last() } else { x@ }),
        MutatedString::NotSeq => None,
    }
}

impl MutatedString {
    /// Classifies one side of an amino-acid change; the empty text is refused.
    pub fn from_str(input_str: &str) -> (r: Result<MutatedString, ()>)
        ensures
            r is Err <==> input_str@.len() == 0,
            r is Ok ==> classified_as(input_str@, r->Ok_0),
    {
        let v = chars_of(input_str);
        if v.len() == 0 {
            return Err(());
        }
        if v.len() == 1 && v[0] == '*' {
            assert(v@ =~= seq!['*']);
            return Ok(MutatedString::NotSeq);
        }
        let text = string_of(v.as_slice());
        if count_in(&v, '*') != 0 {
            Ok(MutatedString::EndSequence(text))
        } else {
            Ok(MutatedString::Sequence(text))
        }
    }

    /// The residues this side carries, as characters (see `payload`).
    pub fn residues(&self) -> (r: Option<Vec<char>>)
        ensures
            r is Some <==> payload(*self) is Some,
            r matches Some(v) ==> v@ == payload(*self)->0,
    {
        match self {
            MutatedString::Sequence(x) => {
                let v = chars_of(x.as_str());
                assert(v@ == x@);
                Some(v)
            },
            MutatedString::EndSequence(x) => {
                let mut v = chars_of(x.as_str());
                if v.len() > 0 {
                    v.pop();
                }
                Some(v)
            },
            MutatedString::NotSeq => None,
        }
    }
}

/// The amino-acid change of a mutation: 0-based positions in the reference and
/// in the mutated protein, and the two sides.
#[derive(Debug, Clone, PartialEq, Eq)]
pub struct MutationInfo {
    pub ref_aa_position: u16,
    pub mut_aa_position: u16,
    pub ref_aa: MutatedString,
    pub mut_aa: MutatedString,
}

impl MutationInfo {
    /// Builds the change from 1-based positions and the two sides' texts.
    pub fn new(ref_aa_position: u16, mut_aa_position: u16, ref_aa: String, mut_aa: String) -> (r: MutationInfo)
        requires
            ref_aa_position >= 1,
            mut_aa_position >= 1,
            ref_aa@.len() > 0,
            mut_aa@.len() > 0,
        ensures
            r.ref_aa_position == ref_aa_position - 1,
            r.mut_aa_position == mut_aa_position - 1,
            classified_as(ref_aa@, r.ref_aa),
            classified_as(mut_aa@, r.mut_aa),
    {
        let ra = match MutatedString::from_str(ref_aa.as_str()) {
            Ok(m) => m,
            Err(_) => MutatedString::NotSeq,
        };
        let ma = match MutatedString::from_str(mut_aa.as_str()) {
            Ok(m) => m,
            Err(_) => MutatedString::NotSeq,
        };
        MutationInfo {
            ref_aa_position: ref_aa_position - 1,
            mut_aa_position: mut_aa_position - 1,
            ref_aa: ra,
            mut_aa: ma,
        }
    }
}

/// One consequence call: its kind, the transcript it edits, and the change.
#[derive(Debug, Clone)]
pub struct Mutation {
    pub transcrit_name: String,
    pub mut_type: MutationType,
    pub mut_info: MutationInfo,
}

/// `m` is the mutation that the fields kind, transcript and change denote.
pub open spec fn denotes(kind: Seq<char>, name: Seq<char>, change: Seq<char>, m: Mutation) -> bool {
    &&& mutation_type_of(kind) == Some(m.mut_type)
    &&& m.transcrit_name@ == name
    &&& aa_field(change) matches Some(f) && info_matches(f, m.mut_info)
}

/// `info` holds the parsed change `f`.
pub open spec fn info_matches(f: AaField, info: MutationInfo) -> bool {
    &&& info.ref_aa_position == f.ref_pos - 1
    &&& info.mut_aa_position == f.mut_pos - 1
    &&& classified_as(f.ref_seq, info.ref_aa)
    &&& classified_as(f.mut_seq, info.mut_aa)
}

impl Mutation {
    /// Builds a mutation from its three fields: kind, transcript id and amino-acid change.
    pub fn new(info_vec: Vec<String>) -> (r: Result<Mutation, String>)
        ensures
            r is Ok <==> (info_vec@.len() == 3 && mutation_type_of(info_vec@[0]@) is Some
                && aa_field(info_vec@[2]@) is Some),
            r is Ok ==> denotes(info_vec@[0]@, info_vec@[1]@, info_vec@[2]@, r->Ok_0),
    {
        if info_vec.len() != 3 {
            return Err("a mutation needs exactly three fields".to_owned());
        }
        let mut_type = match MutationType::from_str(info_vec[0].as_str()) {
            Ok(t) => t,
            Err(_) => return Err("the mutation kind is not supported".to_owned()),
        };
        let mut_info = match parse_amino_acid_field(&info_vec[2]) {
            Ok(info) => info,
            Err(e) => return Err(e),
        };
        Ok(Mutation { transcrit_name: info_vec[1].clone(), mut_type, mut_info })
    }
}

} // verus!
