use vstd::prelude::*;
use crate::genome::IntMap;
use crate::mutation::{Mutation, MutationType};
use crate::vcf::AltTranscript;

verus! {

/// The supported kinds, in the column order of the per-sample kind table.
pub open spec fn kind_order() -> Seq<MutationType> {
    seq![
        MutationType::MisSense, MutationType::SMisSense, MutationType::FrameShift, MutationType::SFrameShift,
        MutationType::InframeInsertion, MutationType::SInframeInsertion, MutationType::InframeDeletion,
        MutationType::SInframeDeletion, MutationType::StopGained, MutationType::StopLost,
        MutationType::SMisSenseAndInframeAltering, MutationType::SFrameShiftAndStopRetained,
        MutationType::SStopGainedAndInframeAltering, MutationType::FrameShiftAndStopRetained,
        MutationType::InframeDeletionAndStopRetained, MutationType::InframeInsertionAndStopRetained,
        MutationType::StopGainedAndInframeAltering, MutationType::StartLost, MutationType::SStopGained,
        MutationType::StopLostAndFrameShift, MutationType::MissenseAndInframeAltering,
        MutationType::StartLostAndSpliceRegion,
    ]
}

/// The supported kinds, in column order (see `kind_order`).
pub fn supported_kinds() -> (r: Vec<MutationType>)
    ensures
        r@ == kind_order(),
{
    let r = vec![
        MutationType::MisSense, MutationType::SMisSense, MutationType::FrameShift, MutationType::SFrameShift,
        MutationType::InframeInsertion, MutationType::SInframeInsertion, MutationType::InframeDeletion,
        MutationType::SInframeDeletion, MutationType::StopGained, MutationType::StopLost,
        MutationType::SMisSenseAndInframeAltering, MutationType::SFrameShiftAndStopRetained,
        MutationType::SStopGainedAndInframeAltering, MutationType::FrameShiftAndStopRetained,
        MutationType::InframeDeletionAndStopRetained, MutationType::InframeInsertionAndStopRetained,
        MutationType::StopGainedAndInframeAltering, MutationType::StartLost, MutationType::SStopGained,
        MutationType::StopLostAndFrameShift, MutationType::MissenseAndInframeAltering,
        MutationType::StartLostAndSpliceRegion,
    ];
    assert(r@ =~= kind_order());
    r
}

/// How many mutations of kind `t` the mutations hold.
pub open spec fn count_in_muts(ms: Seq<Mutation>, t: MutationType) -> nat
    decreases ms.len(),
{
    if ms.len() == 0 { 0 } else { count_in_muts(ms.drop_last(), t) + if ms.last().mut_type == t { 1nat } else { 0nat } }
}

/// How many mutations of kind `t` the transcripts hold.
pub open spec fn count_in_alts(alts: Seq<AltTranscript>, t: MutationType) -> nat
    decreases alts.len(),
{
    if alts.len() == 0 { 0 } else { count_in_alts(alts.drop_last(), t) + count_in_muts(alts.last().alts@, t) }
}

pub open spec fn capped(n: nat) -> u64 {
    if n <= u64::MAX { n as u64 } else { u64::MAX }
}

fn count_kind(alts: &Vec<AltTranscript>, t: MutationType) -> (r: u64)
    ensures
        r == capped(count_in_alts(alts@, t)),
{
    let mut total: u64 = 0;
    let mut i: usize = 0;
    while i < alts.len()
        invariant
            i <= alts@.len(),
            total == capped(count_in_alts(alts@.take(i as int), t)),
        decreases alts.len() - i,
    {
        assert(alts@.take(i as int + 1).drop_last() =~= alts@.take(i as int));
        let ms = &alts[i].alts;
        let ghost before = count_in_alts(alts@.take(i as int), t);
        let mut j: usize = 0;
        while j < ms.len()
            invariant
                j <= ms@.len(),
                ms@ == alts@[i as int].alts@,
                total == capped(before + count_in_muts(ms@.take(j as int), t)),
            decreases ms.len() - j,
        {
            assert(ms@.take(j as int + 1).drop_last() =~= ms@.take(j as int));
            if ms[j].mut_type == t && total < u64::MAX {
                total = total + 1;
            }
            j = j + 1;
        }
        assert(ms@.take(ms@.len() as int) =~= ms@);
        i = i + 1;
    }
    assert(alts@.take(alts@.len() as int) =~= alts@);
    total
}

/// The name of a sample and how many transcripts its two haplotypes alter.
pub fn number_mutations_per_proband(int_map: &IntMap) -> (r: (String, u64))
    ensures
        r.0 == int_map.proband_name,
        r.1 == capped(int_map.mutations1@.len() + int_map.mutations2@.len()),
{
    let a = int_map.mutations1.len() as u64;
    let b = int_map.mutations2.len() as u64;
    let n = if a > u64::MAX - b { u64::MAX } else { a + b };
    (int_map.proband_name.clone(), n)
}

/// For each supported kind in column order, how many mutations of the sample have it.
pub open spec fn mutation_frequency(m: IntMap) -> Seq<u64> {
    Seq::new(kind_order().len(), |k: int| capped(
        count_in_alts(m.mutations1@, kind_order()[k]) + count_in_alts(m.mutations2@, kind_order()[k])))
}

/// The name of a sample and, for each supported kind in column order, how many
/// of its mutations have that kind.
pub fn compute_mutation_frequency(int_map: &IntMap) -> (r: (String, Vec<u64>))
    ensures
        r.0 == int_map.proband_name,
        r.1@.len() == kind_order().len(),
        forall|k: int| 0 <= k < r.1@.len() ==> #[trigger] r.1@[k] == capped(
            count_in_alts(int_map.mutations1@, kind_order()[k]) + count_in_alts(int_map.mutations2@, kind_order()[k])),
{
    let kinds = supported_kinds();
    let mut counts: Vec<u64> = Vec::new();
    let mut k: usize = 0;
    while k < kinds.len()
        invariant
            kinds@ == kind_order(),
            k <= kinds@.len(),
            counts@.len() == k,
            forall|i: int| 0 <= i < k ==> #[trigger] counts@[i] == capped(
                count_in_alts(int_map.mutations1@, kind_order()[i]) + count_in_alts(int_map.mutations2@, kind_order()[i])),
        decreases kinds.len() - k,
    {
        let a = count_kind(&int_map.mutations1, kinds[k]);
        let b = count_kind(&int_map.mutations2, kinds[k]);
        let n = if a > u64::MAX - b { u64::MAX } else { a + b };
        counts.push(n);
        k = k + 1;
    }
    (int_map.proband_name.clone(), counts)
}

/// For every sample, its name and the number of transcripts it alters.
pub fn compute_number_mutation_per_proband(vec_intmaps: &Vec<IntMap>) -> (r: Vec<(String, u64)>)
    ensures
        r@.len() == vec_intmaps@.len(),
        forall|k: int| 0 <= k < r@.len() ==> (#[trigger] r@[k]).0 == vec_intmaps@[k].proband_name
            && r@[k].1 == capped(vec_intmaps@[k].mutations1@.len() + vec_intmaps@[k].mutations2@.len()),
{
    let mut out: Vec<(String, u64)> = Vec::new();
    let mut k: usize = 0;
    while k < vec_intmaps.len()
        invariant
            k <= vec_intmaps@.len(),
            out@.len() == k,
            forall|i: int| 0 <= i < k ==> (#[trigger] out@[i]).0 == vec_intmaps@[i].proband_name
                && out@[i].1 == capped(vec_intmaps@[i].mutations1@.len() + vec_intmaps@[i].mutations2@.len()),
        decreases vec_intmaps.len() - k,
    {
        out.push(number_mutations_per_proband(&vec_intmaps[k]));
        k = k + 1;
    }
    out
}

/// For every sample, its name and its counts per kind (see `compute_mutation_frequency`).
pub fn compute_type_mutations_per_patient(vec_intmaps: &Vec<IntMap>) -> (r: Vec<(String, Vec<u64>)>)
    ensures
        r@.len() == vec_intmaps@.len(),
        forall|k: int| 0 <= k < r@.len() ==> (#[trigger] r@[k]).0 == vec_intmaps@[k].proband_name
            && r@[k].1@ == mutation_frequency(vec_intmaps@[k]),
{
    let mut out: Vec<(String, Vec<u64>)> = Vec::new();
    let mut k: usize = 0;
    while k < vec_intmaps.len()
        invariant
            k <= vec_intmaps@.len(),
            out@.len() == k,
            forall|i: int| 0 <= i < k ==> (#[trigger] out@[i]).0 == vec_intmaps@[i].proband_name
                && out@[i].1@ == mutation_frequency(vec_intmaps@[i]),
        decreases vec_intmaps.len() - k,
    {
        let row = compute_mutation_frequency(&vec_intmaps[k]);
        assert(row.1@ =~= mutation_frequency(vec_intmaps@[k as int]));
        out.push(row);
        k = k + 1;
    }
    out
}

/// Whether one of the transcripts has the name.
pub open spec fn names_transcript(alts: Seq<AltTranscript>, name: Seq<char>) -> bool {
    exists|i: int| 0 <= i < alts.len() && (#[trigger] alts[i]).name@ == name
}

fn has_transcript(alts: &Vec<AltTranscript>, name: &String) -> (r: bool)
    ensures
        r == names_transcript(alts@, name@),
{
    let mut i: usize = 0;
    while i < alts.len()
        invariant
            i <= alts@.len(),
            forall|k: int| 0 <= k < i ==> (#[trigger] alts@[k]).name@ != name@,
        decreases alts.len() - i,
    {
        if alts[i].name == *name {
            return true;
        }
        i = i + 1;
    }
    false
}

/// How many haplotypes of the samples alter a transcript.
pub open spec fn haplotypes_with(maps: Seq<IntMap>, name: Seq<char>) -> nat
    decreases maps.len(),
{
    if maps.len() == 0 {
        0
    } else {
        haplotypes_with(maps.drop_last(), name)
            + (if names_transcript(maps.last().mutations1@, name) { 1nat } else { 0nat })
            + (if names_transcript(maps.last().mutations2@, name) { 1nat } else { 0nat })
    }
}

/// A transcript's name and how many haplotypes of the samples alter it.
pub fn count_in_all_individual(transcript_name: String, vec_intmaps: &Vec<IntMap>) -> (r: (String, u64))
    ensures
        r.0 == transcript_name,
        r.1 == capped(haplotypes_with(vec_intmaps@, transcript_name@)),
{
    let mut total: u64 = 0;
    let mut k: usize = 0;
    while k < vec_intmaps.len()
        invariant
            k <= vec_intmaps@.len(),
            total == capped(haplotypes_with(vec_intmaps@.take(k as int), transcript_name@)),
        decreases vec_intmaps.len() - k,
    {
        assert(vec_intmaps@.take(k as int + 1).drop_last() =~= vec_intmaps@.take(k as int));
        if has_transcript(&vec_intmaps[k].mutations1, &transcript_name) && total < u64::MAX {
            total = total + 1;
        }
        if has_transcript(&vec_intmaps[k].mutations2, &transcript_name) && total < u64::MAX {
            total = total + 1;
        }
        k = k + 1;
    }
    assert(vec_intmaps@.take(vec_intmaps@.len() as int) =~= vec_intmaps@);
    (transcript_name, total)
}

/// The names of the transcripts the samples alter, each once, in order of first appearance.
pub fn get_uniuqe_transcript(vec_intmaps: &Vec<IntMap>) -> (r: Vec<String>)
    ensures
        forall|i: int, j: int| 0 <= i < j < r@.len() ==> (#[trigger] r@[i])@ != (#[trigger] r@[j])@,
{
    let mut out: Vec<String> = Vec::new();
    let mut k: usize = 0;
    while k < vec_intmaps.len()
        invariant
            k <= vec_intmaps@.len(),
            forall|i: int, j: int| 0 <= i < j < out@.len() ==> (#[trigger] out@[i])@ != (#[trigger] out@[j])@,
        decreases vec_intmaps.len() - k,
    {
        add_names(&vec_intmaps[k].mutations1, &mut out);
        add_names(&vec_intmaps[k].mutations2, &mut out);
        k = k + 1;
    }
    out
}

fn add_names(alts: &Vec<AltTranscript>, out: &mut Vec<String>)
    requires
        forall|i: int, j: int| 0 <= i < j < old(out)@.len() ==> (#[trigger] old(out)@[i])@ != (#[trigger] old(out)@[j])@,
    ensures
        forall|i: int, j: int| 0 <= i < j < final(out)@.len() ==> (#[trigger] final(out)@[i])@ != (#[trigger] final(out)@[j])@,
{
    let mut a: usize = 0;
    while a < alts.len()
        invariant
            a <= alts@.len(),
            forall|i: int, j: int| 0 <= i < j < out@.len() ==> (#[trigger] out@[i])@ != (#[trigger] out@[j])@,
        decreases alts.len() - a,
    {
        let name = &alts[a].name;
        let mut seen = false;
        let mut i: usize = 0;
        while i < out.len()
            invariant
                i <= out@.len(),
                seen <==> exists|j: int| 0 <= j < i && (#[trigger] out@[j])@ == name@,
            decreases out.len() - i,
        {
            if out[i] == *name {
                seen = true;
            }
            i = i + 1;
        }
        if !seen {
            out.push(name.clone());
        }
        a = a + 1;
    }
}

/// For every transcript the samples alter, its name and how many haplotypes alter it.
pub fn compute_number_of_mutations_per_transcript(vec_intmaps: &Vec<IntMap>) -> (r: Vec<(String, u64)>)
    ensures
        forall|k: int| 0 <= k < r@.len() ==>
            (#[trigger] r@[k]).1 == capped(haplotypes_with(vec_intmaps@, r@[k].0@)),
{
    let names = get_uniuqe_transcript(vec_intmaps);
    let mut out: Vec<(String, u64)> = Vec::new();
    let mut k: usize = 0;
    while k < names.len()
        invariant
            k <= names@.len(),
            forall|i: int| 0 <= i < out@.len() ==>
                (#[trigger] out@[i]).1 == capped(haplotypes_with(vec_intmaps@, out@[i].0@)),
        decreases names.len() - k,
    {
        out.push(count_in_all_individual(names[k].clone(), vec_intmaps));
        k = k + 1;
    }
    out
}

} // verus!
