use vstd::prelude::*;
use crate::gir::{max_end, Annotation, GIR};
use crate::haplotype::{annotation_values, annotations_inside, hap_annotations, hap_output, lowered_transcripts,
    transcript_values};
use crate::transcript::DiagConfig;
use crate::haplotype::HaplotypeInstruction;
use crate::vcf::{parsed, row_effects, row_ok, string_views, AltTranscript, VCFRecords};
use crate::parser::{csq_fields, split_csq_string};
use crate::fasta::FastaFile;
use crate::text::{chars_of, string_of};
use crate::Engine;

verus! {

/// The name recorded first in `anns` under `name`, with its range.
pub open spec fn find_annotation(anns: Seq<Annotation>, name: Seq<char>) -> Option<(usize, usize)>
    decreases anns.len(),
{
    if anns.len() == 0 {
        None
    } else if anns[0].0@ == name {
        Some(anns[0].1)
    } else {
        find_annotation(anns.subrange(1, anns.len() as int), name)
    }
}

/// An edited stream with the range of each transcript in it.
#[derive(Debug, Clone)]
pub struct SequenceTape {
    pub seq_str: String,
    pub annotations: Vec<Annotation>,
}

impl SequenceTape {
    /// Every annotated range ends inside the stream.
    pub open spec fn wf(&self) -> bool {
        forall|k: int| 0 <= k < self.annotations@.len() ==> (#[trigger] self.annotations@[k]).1.1 <= self.seq_str@.len()
    }

    /// Builds a tape; fails when an annotated range ends past the stream.
    pub fn new(seq_str: String, annotations: Vec<Annotation>) -> (r: Result<Self, String>)
        ensures
            r is Ok <==> forall|k: int| 0 <= k < annotations@.len() ==> (#[trigger] annotations@[k]).1.1 <= seq_str@.len(),
            r matches Ok(t) ==> t.seq_str == seq_str && t.annotations == annotations,
    {
        let max_index = SequenceTape::get_max_index(&annotations);
        let n = chars_of(seq_str.as_str()).len();
        if max_index > n {
            return Err("an annotated range ends past the end of the tape".to_owned());
        }
        Ok(SequenceTape { seq_str, annotations })
    }

    pub fn get_annotation(&self) -> (r: &Vec<Annotation>)
        ensures r == &self.annotations,
    {
        &self.annotations
    }

    /// The part of the stream annotated with `seq_name`; fails when the name is
    /// not annotated or its range does not lie in the stream.
    pub fn get_seq(&self, seq_name: &String) -> (r: Result<String, String>)
        ensures
            r is Ok <==> (find_annotation(self.annotations@, seq_name@) matches Some((a, b))
                && a <= b <= self.seq_str@.len()),
            r matches Ok(s) ==> (find_annotation(self.annotations@, seq_name@) matches Some((a, b))
                && s@ == self.seq_str@.subrange(a as int, b as int)),
    {
        let mut i: usize = 0;
        let n = self.annotations.len();
        assert(self.annotations@.subrange(0, n as int) =~= self.annotations@);
        while i < n
            invariant
                i <= n == self.annotations@.len(),
                find_annotation(self.annotations@, seq_name@)
                    == find_annotation(self.annotations@.subrange(i as int, n as int), seq_name@),
            decreases n - i,
        {
            let ghost rest = self.annotations@.subrange(i as int, n as int);
            assert(rest.subrange(1, rest.len() as int) =~= self.annotations@.subrange(i as int + 1, n as int));
            if self.annotations[i].0 == *seq_name {
                let (a, b) = self.annotations[i].1;
                let v = chars_of(self.seq_str.as_str());
                if a > b || b > v.len() {
                    return Err("the annotated range lies outside the tape".to_owned());
                }
                let mut out: Vec<char> = Vec::new();
                let mut k: usize = a;
                while k < b
                    invariant
                        a <= k <= b <= v@.len(),
                        out@ == v@.subrange(a as int, k as int),
                    decreases b - k,
                {
                    out.push(v[k]);
                    k = k + 1;
                    assert(out@ =~= v@.subrange(a as int, k as int));
                }
                return Ok(string_of(out.as_slice()));
            }
            i = i + 1;
        }
        Err("the name is not annotated on this tape".to_owned())
    }

    /// The largest end of an annotated range (0 when there is none).
    pub fn get_max_index(annotation: &Vec<Annotation>) -> (r: usize)
        ensures
            forall|i: int| 0 <= i < annotation@.len() ==> (#[trigger] annotation@[i]).1.1 <= r,
            r == 0 || exists|i: int| 0 <= i < annotation@.len() && (#[trigger] annotation@[i]).1.1 == r,
    {
        max_end(annotation)
    }
}

/// The two edited haplotypes of one sample.
#[derive(Debug, Clone)]
pub struct PersonalizedGenome {
    pub proband_name: String,
    pub seq_tape1: SequenceTape,
    pub seq_tape2: SequenceTape,
}

/// The lowered transcripts of both haplotypes of one sample.
#[derive(Debug, Clone)]
pub struct ProbandInstruction {
    pub proband_name: String,
    pub haplotype1_instruction: HaplotypeInstruction,
    pub haplotype2_instruction: HaplotypeInstruction,
}

/// The mutations of one sample, grouped per transcript, for each haplotype.
#[derive(Debug, Clone)]
pub struct IntMap {
    pub proband_name: String,
    pub mutations1: Vec<AltTranscript>,
    pub mutations2: Vec<AltTranscript>,
}

/// The consequence strings of one sample, for each haplotype.
#[derive(Debug, Clone)]
pub struct EarlyMap {
    pub proband_name: String,
    pub mutations1: Vec<String>,
    pub mutations2: Vec<String>,
}

impl EarlyMap {
    pub fn new(proband_name: String, mutations1: Vec<String>, mutations2: Vec<String>) -> (r: Self)
        ensures r.proband_name == proband_name && r.mutations1 == mutations1 && r.mutations2 == mutations2,
    {
        EarlyMap { proband_name, mutations1, mutations2 }
    }

    pub fn with_capacity(proband_name: String, expected_number: usize) -> (r: Self)
        ensures r.proband_name == proband_name && r.mutations1@.len() == 0 && r.mutations2@.len() == 0,
    {
        EarlyMap { proband_name, mutations1: Vec::with_capacity(expected_number),
            mutations2: Vec::with_capacity(expected_number) }
    }

    /// Adds a consequence to haplotype 1 when `haplotype` is 1, to haplotype 2 otherwise.
    pub fn add_mutation(&mut self, mutation: String, haplotype: u8)
        ensures
            final(self).proband_name == old(self).proband_name,
            haplotype == 1 ==> final(self).mutations1@ == old(self).mutations1@.push(mutation)
                && final(self).mutations2 == old(self).mutations2,
            haplotype != 1 ==> final(self).mutations2@ == old(self).mutations2@.push(mutation)
                && final(self).mutations1 == old(self).mutations1,
    {
        if haplotype == 1 {
            self.mutations1.push(mutation);
        } else {
            self.mutations2.push(mutation);
        }
    }

    pub fn get_mutations_ref(&self) -> (r: (&Vec<String>, &Vec<String>))
        ensures r.0 == &self.mutations1 && r.1 == &self.mutations2,
    {
        (&self.mutations1, &self.mutations2)
    }

    pub fn get_proband_name(&self) -> (r: &String)
        ensures r == &self.proband_name,
    {
        &self.proband_name
    }
}

impl IntMap {
    pub fn new(proband_name: String, mutations1: Vec<AltTranscript>, mutations2: Vec<AltTranscript>) -> (r: Self)
        ensures r.proband_name == proband_name && r.mutations1 == mutations1 && r.mutations2 == mutations2,
    {
        IntMap { proband_name, mutations1, mutations2 }
    }

    pub fn get_mutations_ref(&self) -> (r: (&Vec<AltTranscript>, &Vec<AltTranscript>))
        ensures r.0 == &self.mutations1 && r.1 == &self.mutations2,
    {
        (&self.mutations1, &self.mutations2)
    }

    pub fn get_name(&self) -> (r: &String)
        ensures r == &self.proband_name,
    {
        &self.proband_name
    }

    pub fn consume_and_get_vecs(self) -> (r: (Vec<AltTranscript>, Vec<AltTranscript>))
        ensures r.0 == self.mutations1 && r.1 == self.mutations2,
    {
        (self.mutations1, self.mutations2)
    }
}

impl ProbandInstruction {
    pub fn new(proband_name: String, haplotype1_instruction: HaplotypeInstruction,
        haplotype2_instruction: HaplotypeInstruction) -> (r: Self)
        ensures
            r.proband_name == proband_name && r.haplotype1_instruction == haplotype1_instruction
                && r.haplotype2_instruction == haplotype2_instruction,
    {
        ProbandInstruction { proband_name, haplotype1_instruction, haplotype2_instruction }
    }

    /// Lowers the transcripts of both haplotypes of a sample.
    pub fn from_intmap(int_map: IntMap, engine: Engine, ref_seq: &FastaFile) -> (r: Self)
        ensures
            r.proband_name == int_map.proband_name,
            transcript_values(r.haplotype1_instruction.instructions@)
                == lowered_transcripts(int_map.mutations1@, ref_seq.fastarecords@, DiagConfig { inspect_ins_gen: false }),
            transcript_values(r.haplotype2_instruction.instructions@)
                == lowered_transcripts(int_map.mutations2@, ref_seq.fastarecords@, DiagConfig { inspect_ins_gen: false }),
    {
        ProbandInstruction::from_intmap_with(int_map, engine, ref_seq, DiagConfig { inspect_ins_gen: false })
    }

    /// Like `from_intmap`, with the diagnostic switches `diag`.
    pub fn from_intmap_with(int_map: IntMap, engine: Engine, ref_seq: &FastaFile, diag: DiagConfig) -> (r: Self)
        ensures
            r.proband_name == int_map.proband_name,
            transcript_values(r.haplotype1_instruction.instructions@)
                == lowered_transcripts(int_map.mutations1@, ref_seq.fastarecords@, diag),
            transcript_values(r.haplotype2_instruction.instructions@)
                == lowered_transcripts(int_map.mutations2@, ref_seq.fastarecords@, diag),
    {
        let IntMap { proband_name, mutations1, mutations2 } = int_map;
        let h1 = HaplotypeInstruction::from_vec_t_ins_with(mutations1, engine, ref_seq, diag);
        let h2 = HaplotypeInstruction::from_vec_t_ins_with(mutations2, engine, ref_seq, diag);
        ProbandInstruction { proband_name, haplotype1_instruction: h1, haplotype2_instruction: h2 }
    }
}

impl PersonalizedGenome {
    pub fn new(proband_name: String, seq_tape1: SequenceTape, seq_tape2: SequenceTape) -> (r: Self)
        ensures r.proband_name == proband_name && r.seq_tape1 == seq_tape1 && r.seq_tape2 == seq_tape2,
    {
        PersonalizedGenome { proband_name, seq_tape1, seq_tape2 }
    }

    /// Compiles and runs both haplotypes of a sample into two tapes.
    pub fn from_proband_instruction(proband_instruction: ProbandInstruction, engine: Engine, ref_seq: &FastaFile)
        -> (r: Self)
        ensures
            r.proband_name == proband_instruction.proband_name,
            r.seq_tape1.wf(),
            r.seq_tape2.wf(),
            r.seq_tape1.seq_str@ == hap_output(proband_instruction.haplotype1_instruction.instructions@, ref_seq.fastarecords@),
            annotation_values(r.seq_tape1.annotations@)
                == hap_annotations(proband_instruction.haplotype1_instruction.instructions@, ref_seq.fastarecords@),
            r.seq_tape2.seq_str@ == hap_output(proband_instruction.haplotype2_instruction.instructions@, ref_seq.fastarecords@),
            annotation_values(r.seq_tape2.annotations@)
                == hap_annotations(proband_instruction.haplotype2_instruction.instructions@, ref_seq.fastarecords@),
    {
        let ProbandInstruction { proband_name, haplotype1_instruction, haplotype2_instruction } = proband_instruction;
        let mut h1 = haplotype1_instruction;
        let mut h2 = haplotype2_instruction;
        let seq_tape1 = PersonalizedGenome::tape_of(h1.get_g_rep(ref_seq, engine), engine);
        let seq_tape2 = PersonalizedGenome::tape_of(h2.get_g_rep(ref_seq, engine), engine);
        PersonalizedGenome { proband_name, seq_tape1, seq_tape2 }
    }

    fn tape_of(g: GIR, engine: Engine) -> (r: SequenceTape)
        requires
            g.wf(),
            annotations_inside(g),
        ensures
            r.wf(),
            r.seq_str@ == g.output(),
            r.annotations == g.annotation,
    {
        let ghost anns = g.annotation@;
        let ghost n = g.res_array@.len();
        let (res, annotations) = g.execute(engine);
        let seq_str = string_of(res.as_slice());
        let r = SequenceTape { seq_str, annotations };
        assert forall|k: int| 0 <= k < r.annotations@.len() implies (#[trigger] r.annotations@[k]).1.1 <= r.seq_str@.len() by {
            assert(anns[k].1.1 <= n);
        }
        r
    }
}

/// The transcript id of a consequence string, when it has one.
pub open spec fn csq_transcript(s: Seq<char>) -> Option<Seq<char>> {
    match csq_fields(s) {
        Some(f) => Some(f[1]),
        None => None,
    }
}

/// The transcript ids of the consequence strings, each once, in order of first appearance.
pub open spec fn unique_names(strs: Seq<String>) -> Seq<Seq<char>>
    decreases strs.len(),
{
    if strs.len() == 0 {
        Seq::empty()
    } else {
        let prev = unique_names(strs.drop_last());
        match csq_transcript(strs.last()@) {
            Some(t) => if prev.contains(t) { prev } else { prev.push(t) },
            None => prev,
        }
    }
}

/// The consequence strings of one transcript, in order.
pub open spec fn with_transcript(strs: Seq<String>, name: Seq<char>) -> Seq<String>
    decreases strs.len(),
{
    if strs.len() == 0 {
        Seq::empty()
    } else {
        with_transcript(strs.drop_last(), name) + if csq_transcript(strs.last()@) == Some(name) {
            seq![strs.last()]
        } else {
            Seq::empty()
        }
    }
}

/// `alts` groups the consequence strings per transcript: one group per
/// transcript id, in order of first appearance, holding the mutations of that
/// transcript's strings.
pub open spec fn grouped(strs: Seq<String>, alts: Seq<AltTranscript>) -> bool {
    &&& alts.len() == unique_names(strs).len()
    &&& forall|i: int| 0 <= i < alts.len() ==> (#[trigger] alts[i]).name@ == unique_names(strs)[i]
        && parsed(with_transcript(strs, alts[i].name@), alts[i].alts@)
}

/// The transcript ids of the consequence strings, each once, in order of first appearance.
pub fn get_unique_transcript(vec_mut: &Vec<String>) -> (r: Vec<String>)
    ensures
        string_views(r@) == unique_names(vec_mut@),
{
    let mut out: Vec<String> = Vec::new();
    let mut k: usize = 0;
    while k < vec_mut.len()
        invariant
            k <= vec_mut@.len(),
            string_views(out@) == unique_names(vec_mut@.take(k as int)),
        decreases vec_mut.len() - k,
    {
        assert(vec_mut@.take(k as int + 1).drop_last() =~= vec_mut@.take(k as int));
        assert(vec_mut@.take(k as int + 1).last() == vec_mut@[k as int]);
        match split_csq_string(&vec_mut[k]) {
            Ok(fields) => {
                let name = fields[1].clone();
                let ghost prev = string_views(out@);
                let mut seen = false;
                let mut i: usize = 0;
                while i < out.len()
                    invariant
                        i <= out@.len(),
                        prev == string_views(out@),
                        seen <==> exists|j: int| 0 <= j < i && (#[trigger] out@[j])@ == name@,
                    decreases out.len() - i,
                {
                    if out[i] == name {
                        seen = true;
                    }
                    i = i + 1;
                }
                proof {
                    if seen {
                        let j = choose|j: int| 0 <= j < out@.len() && (#[trigger] out@[j])@ == name@;
                        assert(prev[j] == name@);
                    } else {
                        assert forall|j: int| 0 <= j < prev.len() implies prev[j] != name@ by {
                            assert(prev[j] == out@[j]@);
                        }
                    }
                }
                if !seen {
                    out.push(name);
                    assert(string_views(out@) =~= prev.push(name@));
                }
            },
            Err(_) => {},
        }
        k = k + 1;
    }
    assert(vec_mut@.take(vec_mut@.len() as int) =~= vec_mut@);
    out
}

/// Groups the consequence strings of one haplotype by transcript (see `grouped`).
pub fn group_muts_per_transcript(vec_mut: &Vec<String>) -> (r: Vec<AltTranscript>)
    ensures
        grouped(vec_mut@, r@),
{
    let names = get_unique_transcript(vec_mut);
    let mut res: Vec<AltTranscript> = Vec::new();
    let mut i: usize = 0;
    while i < names.len()
        invariant
            i <= names@.len(),
            string_views(names@) == unique_names(vec_mut@),
            res@.len() == i,
            forall|q: int| 0 <= q < i ==> (#[trigger] res@[q]).name@ == unique_names(vec_mut@)[q]
                && parsed(with_transcript(vec_mut@, res@[q].name@), res@[q].alts@),
        decreases names.len() - i,
    {
        let name = names[i].clone();
        assert(name@ == unique_names(vec_mut@)[i as int]);
        let mut selected: Vec<String> = Vec::new();
        let mut k: usize = 0;
        while k < vec_mut.len()
            invariant
                k <= vec_mut@.len(),
                selected@ == with_transcript(vec_mut@.take(k as int), name@),
            decreases vec_mut.len() - k,
        {
            assert(vec_mut@.take(k as int + 1).drop_last() =~= vec_mut@.take(k as int));
            assert(vec_mut@.take(k as int + 1).last() == vec_mut@[k as int]);
            let ghost before = selected@;
            match split_csq_string(&vec_mut[k]) {
                Ok(fields) => {
                    if fields[1] == name {
                        selected.push(vec_mut[k].clone());
                        assert(selected@ =~= before + seq![vec_mut@[k as int]]);
                    } else {
                        assert(selected@ =~= before + Seq::<String>::empty());
                    }
                },
                Err(_) => {
                    assert(selected@ =~= before + Seq::<String>::empty());
                },
            }
            k = k + 1;
        }
        assert(vec_mut@.take(vec_mut@.len() as int) =~= vec_mut@);
        res.push(AltTranscript::new(name, selected));
        i = i + 1;
    }
    res
}

/// Groups the consequences of a sample per transcript, for each haplotype.
pub fn build_int_map_from_early(early_map: &EarlyMap) -> (r: IntMap)
    ensures
        r.proband_name == early_map.proband_name,
        grouped(early_map.mutations1@, r.mutations1@),
        grouped(early_map.mutations2@, r.mutations2@),
{
    let (m1, m2) = early_map.get_mutations_ref();
    let a1 = group_muts_per_transcript(m1);
    let a2 = group_muts_per_transcript(m2);
    IntMap::new(early_map.get_proband_name().clone(), a1, a2)
}

/// Groups the consequences of every sample per transcript; every engine gives the same maps.
pub fn early_to_intermediate_repr(vec_of_early_maps: Vec<EarlyMap>, engine: Engine) -> (r: Vec<IntMap>)
    ensures
        r@.len() == vec_of_early_maps@.len(),
        forall|k: int| 0 <= k < r@.len() ==> (#[trigger] r@[k]).proband_name == vec_of_early_maps@[k].proband_name
            && grouped(vec_of_early_maps@[k].mutations1@, r@[k].mutations1@)
            && grouped(vec_of_early_maps@[k].mutations2@, r@[k].mutations2@),
{
    let mut out: Vec<IntMap> = Vec::new();
    let mut k: usize = 0;
    while k < vec_of_early_maps.len()
        invariant
            k <= vec_of_early_maps@.len(),
            out@.len() == k,
            forall|j: int| 0 <= j < k ==> (#[trigger] out@[j]).proband_name == vec_of_early_maps@[j].proband_name
                && grouped(vec_of_early_maps@[j].mutations1@, out@[j].mutations1@)
                && grouped(vec_of_early_maps@[j].mutations2@, out@[j].mutations2@),
        decreases vec_of_early_maps.len() - k,
    {
        out.push(build_int_map_from_early(&vec_of_early_maps[k]));
        k = k + 1;
    }
    out
}

/// The sample names of a VCF file, in column order.
#[derive(Debug, Clone)]
pub struct Probands {
    pub probands: Vec<String>,
}

impl Probands {
    pub fn new(probands: Vec<String>) -> (r: Self)
        ensures r.probands == probands,
    {
        Probands { probands }
    }

    pub fn get_num_probands(&self) -> (r: usize)
        ensures r == self.probands@.len(),
    {
        self.probands.len()
    }

    pub fn get_probands(self) -> (r: Vec<String>)
        ensures r == self.probands,
    {
        self.probands
    }
}

/// The supported consequences of each sample, per haplotype, under the
/// sample's name; fails on a bitmask an outdated caller wrote.
pub fn get_early_map(probands: Probands, records: VCFRecords, engine: Engine) -> (r: Result<Vec<EarlyMap>, String>)
    ensures
        r is Ok <==> forall|p: int| 0 <= p < probands.probands@.len() ==> #[trigger] row_ok(records.records@, p),
        r matches Ok(v) ==> v@.len() == probands.probands@.len()
            && forall|k: int| 0 <= k < v@.len() ==> (#[trigger] v@[k]).proband_name == probands.probands@[k]
                && string_views(v@[k].mutations1@) == row_effects(records.records@, k, 0)
                && string_views(v@[k].mutations2@) == row_effects(records.records@, k, 1),
{
    let n = probands.get_num_probands();
    let mut per_sample = match records.get_csq_per_patient(n) {
        Ok(v) => v,
        Err(e) => return Err(e),
    };
    let ghost all = per_sample@;
    let names = probands.get_probands();
    let mut out: Vec<EarlyMap> = Vec::new();
    let mut k: usize = 0;
    assert(all.subrange(0, all.len() as int) =~= all);
    while k < names.len()
        invariant
            k <= names@.len(),
            names@ == probands.probands@,
            all.len() == names@.len(),
            per_sample@ == all.subrange(k as int, all.len() as int),
            forall|p: int| 0 <= p < all.len() ==> string_views((#[trigger] all[p]).0@) == row_effects(records.records@, p, 0)
                && string_views(all[p].1@) == row_effects(records.records@, p, 1),
            out@.len() == k,
            forall|j: int| 0 <= j < k ==> (#[trigger] out@[j]).proband_name == names@[j]
                && string_views(out@[j].mutations1@) == row_effects(records.records@, j, 0)
                && string_views(out@[j].mutations2@) == row_effects(records.records@, j, 1),
        decreases names.len() - k,
    {
        let (m1, m2) = per_sample.remove(0);
        assert(per_sample@ =~= all.subrange(k as int + 1, all.len() as int));
        assert(m1 == all[k as int].0 && m2 == all[k as int].1);
        out.push(EarlyMap::new(names[k].clone(), m1, m2));
        k = k + 1;
    }
    Ok(out)
}


/// One FASTA record: `>` name `_` suffix, a newline, the sequence, a newline.
pub open spec fn record_text(name: Seq<char>, suffix: char, seq: Seq<char>) -> Seq<char> {
    seq!['>'] + name + seq!['_', suffix, '\n'] + seq + seq!['\n']
}

/// The records of a tape, in annotation order; a range that does not lie in
/// the stream gives no record.
pub open spec fn tape_text(s: Seq<char>, anns: Seq<Annotation>, suffix: char) -> Seq<char>
    decreases anns.len(),
{
    if anns.len() == 0 {
        Seq::empty()
    } else {
        let a = anns.last();
        tape_text(s, anns.drop_last(), suffix) + if a.1.0 <= a.1.1 <= s.len() {
            record_text(a.0@, suffix, s.subrange(a.1.0 as int, a.1.1 as int))
        } else {
            Seq::empty()
        }
    }
}

/// Whether a tape annotates a transcript of that name.
pub open spec fn tape_names(anns: Seq<Annotation>, name: Seq<char>) -> bool {
    exists|k: int| 0 <= k < anns.len() && (#[trigger] anns[k]).0@ == name
}

/// The reference records that a haplotype does not alter, for both haplotypes.
pub open spec fn unaltered_text(recs: Seq<(String, String)>, a1: Seq<Annotation>, a2: Seq<Annotation>) -> Seq<char>
    decreases recs.len(),
{
    if recs.len() == 0 {
        Seq::empty()
    } else {
        let (n, s) = recs.last();
        unaltered_text(recs.drop_last(), a1, a2)
            + (if tape_names(a1, n@) { Seq::empty() } else { record_text(n@, '1', s@) })
            + (if tape_names(a2, n@) { Seq::empty() } else { record_text(n@, '2', s@) })
    }
}

fn push_record(out: &mut Vec<char>, name: &String, suffix: char, seq: &Vec<char>)
    ensures
        final(out)@ == old(out)@ + record_text(name@, suffix, seq@),
{
    out.push('>');
    crate::text::append_chars(out, &chars_of(name.as_str()));
    out.push('_');
    out.push(suffix);
    out.push('\n');
    crate::text::append_chars(out, seq);
    out.push('\n');
    assert(final(out)@ =~= old(out)@ + record_text(name@, suffix, seq@));
}

fn push_tape(out: &mut Vec<char>, tape: &SequenceTape, suffix: char)
    ensures
        final(out)@ == old(out)@ + tape_text(tape.seq_str@, tape.annotations@, suffix),
{
    let s = chars_of(tape.seq_str.as_str());
    let mut k: usize = 0;
    while k < tape.annotations.len()
        invariant
            k <= tape.annotations@.len(),
            s@ == tape.seq_str@,
            out@ == old(out)@ + tape_text(s@, tape.annotations@.take(k as int), suffix),
        decreases tape.annotations.len() - k,
    {
        let ghost before = out@;
        assert(tape.annotations@.take(k as int + 1).drop_last() =~= tape.annotations@.take(k as int));
        assert(tape.annotations@.take(k as int + 1).last() == tape.annotations@[k as int]);
        let (a, b) = tape.annotations[k].1;
        if a <= b && b <= s.len() {
            let mut piece: Vec<char> = Vec::new();
            let mut j: usize = a;
            while j < b
                invariant
                    a <= j <= b <= s@.len(),
                    piece@ == s@.subrange(a as int, j as int),
                decreases b - j,
            {
                piece.push(s[j]);
                j = j + 1;
                assert(piece@ =~= s@.subrange(a as int, j as int));
            }
            push_record(out, &tape.annotations[k].0, suffix, &piece);
        }
        assert(out@ =~= old(out)@ + tape_text(s@, tape.annotations@.take(k as int + 1), suffix));
        k = k + 1;
    }
    assert(tape.annotations@.take(tape.annotations@.len() as int) =~= tape.annotations@);
}

fn names_in(anns: &Vec<Annotation>, name: &String) -> (r: bool)
    ensures
        r == tape_names(anns@, name@),
{
    let mut k: usize = 0;
    while k < anns.len()
        invariant
            k <= anns@.len(),
            forall|i: int| 0 <= i < k ==> (#[trigger] anns@[i]).0@ != name@,
        decreases anns.len() - k,
    {
        if anns[k].0 == *name {
            return true;
        }
        k = k + 1;
    }
    false
}

impl PersonalizedGenome {
    /// The FASTA text of a sample: the records of haplotype 1 (suffix `_1`),
    /// then of haplotype 2 (`_2`), then, on request, the reference records each
    /// haplotype leaves unaltered.
    pub fn fasta_text(&self, write_all: bool, ref_seq: &FastaFile) -> (r: String)
        ensures
            r@ == tape_text(self.seq_tape1.seq_str@, self.seq_tape1.annotations@, '1')
                + tape_text(self.seq_tape2.seq_str@, self.seq_tape2.annotations@, '2')
                + if write_all {
                    unaltered_text(ref_seq.fastarecords@, self.seq_tape1.annotations@, self.seq_tape2.annotations@)
                } else {
                    Seq::empty()
                },
    {
        let mut out: Vec<char> = Vec::new();
        push_tape(&mut out, &self.seq_tape1, '1');
        push_tape(&mut out, &self.seq_tape2, '2');
        let ghost head = out@;
        if write_all {
            let recs = &ref_seq.fastarecords;
            let mut k: usize = 0;
            assert(out@ =~= head + unaltered_text(recs@.take(0), self.seq_tape1.annotations@, self.seq_tape2.annotations@));
            while k < recs.len()
                invariant
                    k <= recs@.len(),
                    out@ == head + unaltered_text(recs@.take(k as int), self.seq_tape1.annotations@,
                        self.seq_tape2.annotations@),
                decreases recs.len() - k,
            {
                assert(recs@.take(k as int + 1).drop_last() =~= recs@.take(k as int));
                assert(recs@.take(k as int + 1).last() == recs@[k as int]);
                let ghost before = out@;
                let seq = chars_of(recs[k].1.as_str());
                if !names_in(&self.seq_tape1.annotations, &recs[k].0) {
                    push_record(&mut out, &recs[k].0, '1', &seq);
                }
                if !names_in(&self.seq_tape2.annotations, &recs[k].0) {
                    push_record(&mut out, &recs[k].0, '2', &seq);
                }
                assert(out@ =~= head + unaltered_text(recs@.take(k as int + 1), self.seq_tape1.annotations@,
                    self.seq_tape2.annotations@));
                k = k + 1;
            }
            assert(recs@.take(recs@.len() as int) =~= recs@);
        } else {
            assert(out@ =~= head + Seq::<char>::empty());
        }
        string_of(out.as_slice())
    }
}

} // verus!
