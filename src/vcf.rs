use vstd::prelude::*;
use vstd::multiset::Multiset;
use crate::mutation::{denotes, mutation_type_of, Mutation};
use crate::parser::{aa_field, csq_fields, split_csq_string};
use crate::mask::{decode_words, BitMask};
use crate::bits::{bitmask_text, mask_words};

verus! {

broadcast use vstd::seq_lib::group_to_multiset_ensures;

/// `m` is the mutation a consequence string denotes.
pub open spec fn csq_mutation(s: Seq<char>, m: Mutation) -> bool {
    csq_fields(s) matches Some(f) && denotes(f[0], f[1], f[2], m)
}

/// Whether a consequence string denotes a supported mutation.
pub open spec fn csq_parses(s: Seq<char>) -> bool {
    csq_fields(s) matches Some(f) && mutation_type_of(f[0]) is Some && aa_field(f[2]) is Some
}

/// `ms` holds, in order, the mutations that the supported strings of `strs`
/// denote; the other strings contribute nothing.
pub open spec fn parsed(strs: Seq<String>, ms: Seq<Mutation>) -> bool
    decreases strs.len(),
{
    if strs.len() == 0 {
        ms.len() == 0
    } else if csq_parses(strs.last()@) {
        ms.len() > 0 && csq_mutation(strs.last()@, ms.last()) && parsed(strs.drop_last(), ms.drop_last())
    } else {
        parsed(strs.drop_last(), ms)
    }
}

/// The index of the first mutation at or after reference position `p`.
pub open spec fn first_not_below(out: Seq<Mutation>, p: u16) -> int
    decreases out.len(),
{
    if out.len() == 0 {
        0
    } else if out[0].mut_info.ref_aa_position >= p {
        0
    } else {
        1 + first_not_below(out.subrange(1, out.len() as int), p)
    }
}

/// The mutations sorted by reference position, those at one position in their
/// given order: each is inserted, from the last to the first, before the first
/// one at or after its position.
pub open spec fn sort_by_ref(s: Seq<Mutation>) -> Seq<Mutation>
    decreases s.len(),
{
    if s.len() == 0 {
        s
    } else {
        let rest = sort_by_ref(s.subrange(1, s.len() as int));
        rest.insert(first_not_below(rest, s[0].mut_info.ref_aa_position), s[0])
    }
}

proof fn lemma_first_not_below_bound(out: Seq<Mutation>, p: u16)
    ensures
        0 <= first_not_below(out, p) <= out.len(),
    decreases out.len(),
{
    if out.len() > 0 {
        lemma_first_not_below_bound(out.subrange(1, out.len() as int), p);
    }
}

/// Mutations in ascending reference position.
pub open spec fn sorted_by_ref(s: Seq<Mutation>) -> bool {
    forall|i: int, j: int| 0 <= i < j < s.len() ==>
        (#[trigger] s[i]).mut_info.ref_aa_position <= (#[trigger] s[j]).mut_info.ref_aa_position
}

/// Reads one consequence string into a mutation.
pub fn parse_csq(alt: &String) -> (r: Result<Mutation, String>)
    ensures
        r is Ok <==> csq_parses(alt@),
        r matches Ok(m) ==> csq_mutation(alt@, m),
{
    match split_csq_string(alt) {
        Ok(fields) => {
            let r = Mutation::new(fields);
            proof {
                if let Some(f) = csq_fields(alt@) {
                    assert(fields@.len() == 3);
                    assert(fields@[0]@ == f[0] && fields@[1]@ == f[1] && fields@[2]@ == f[2]);
                }
            }
            r
        },
        Err(e) => Err(e),
    }
}

/// The mutations of one haplotype on one transcript.
#[derive(Debug, Clone)]
pub struct AltTranscript {
    pub name: String,
    pub alts: Vec<Mutation>,
}

impl AltTranscript {
    /// Reads the consequence strings of a transcript; a string that does not
    /// denote a supported mutation is skipped.
    pub fn new(name: String, alts: Vec<String>) -> (r: Self)
        ensures
            r.name == name,
            parsed(alts@, r.alts@),
    {
        let mut out: Vec<Mutation> = Vec::new();
        let mut i: usize = 0;
        while i < alts.len()
            invariant
                i <= alts@.len(),
                parsed(alts@.take(i as int), out@),
            decreases alts.len() - i,
        {
            assert(alts@.take(i as int + 1).drop_last() =~= alts@.take(i as int));
            assert(alts@.take(i as int + 1).last() == alts@[i as int]);
            match parse_csq(&alts[i]) {
                Ok(m) => {
                    let ghost before = out@;
                    out.push(m);
                    assert(out@.drop_last() =~= before);
                },
                Err(_) => {},
            }
            i = i + 1;
        }
        assert(alts@.take(alts@.len() as int) =~= alts@);
        AltTranscript { name, alts: out }
    }

    pub fn allocate(name: String) -> (r: Self)
        ensures r.name == name && r.alts@.len() == 0,
    {
        AltTranscript { name, alts: Vec::new() }
    }

    pub fn with_capacity(name: String, expected_number: usize) -> (r: Self)
        ensures r.name == name && r.alts@.len() == 0,
    {
        AltTranscript { name, alts: Vec::with_capacity(expected_number) }
    }

    /// Adds the mutation a consequence string denotes; an unsupported string is skipped.
    pub fn add_altes(&mut self, alt: String)
        ensures
            final(self).name == old(self).name,
            csq_parses(alt@) ==> final(self).alts@.len() == old(self).alts@.len() + 1
                && final(self).alts@.drop_last() == old(self).alts@
                && csq_mutation(alt@, final(self).alts@.last()),
            !csq_parses(alt@) ==> final(self).alts@ == old(self).alts@,
    {
        match parse_csq(&alt) {
            Ok(m) => {
                self.alts.push(m);
                assert(self.alts@.drop_last() =~= old(self).alts@);
            },
            Err(_) => {},
        }
    }

    pub fn get_alts(&self) -> (r: &Vec<Mutation>)
        ensures r == &self.alts,
    {
        &self.alts
    }

    /// Orders the mutations by ascending reference position; mutations at the
    /// same position keep their order.
    pub fn sort_alterations(&mut self)
        ensures
            final(self).name == old(self).name,
            sorted_by_ref(final(self).alts@),
            final(self).alts@.to_multiset() == old(self).alts@.to_multiset(),
            final(self).alts@ == sort_by_ref(old(self).alts@),
    {
        let mut out: Vec<Mutation> = Vec::new();
        let ghost all = self.alts@;
        assert(all.subrange(all.len() as int, all.len() as int) =~= Seq::<Mutation>::empty());
        assert(all.subrange(0, all.len() as int) =~= all);
        while self.alts.len() > 0
            invariant
                all == old(self).alts@,
                self.alts@ == all.subrange(0, self.alts@.len() as int),
                self.alts@.len() <= all.len(),
                out@ == sort_by_ref(all.subrange(self.alts@.len() as int, all.len() as int)),
                sorted_by_ref(out@),
                self.alts@.to_multiset().add(out@.to_multiset()) == old(self).alts@.to_multiset(),
                self.name == old(self).name,
            decreases self.alts@.len(),
        {
            let ghost rest = self.alts@;
            let last = self.alts.len() - 1;
            let m = self.alts.remove(last);
            proof {
                assert(rest =~= self.alts@.push(m));
            }
            let p = m.mut_info.ref_aa_position;
            let mut j: usize = 0;
            assert(out@.subrange(0, out@.len() as int) =~= out@);
            while j < out.len() && out[j].mut_info.ref_aa_position < p
                invariant
                    j <= out@.len(),
                    forall|k: int| 0 <= k < j ==> (#[trigger] out@[k]).mut_info.ref_aa_position < p,
                    first_not_below(out@, p) == j + first_not_below(out@.subrange(j as int, out@.len() as int), p),
                decreases out.len() - j,
            {
                let ghost sub = out@.subrange(j as int, out@.len() as int);
                assert(sub.subrange(1, sub.len() as int) =~= out@.subrange(j as int + 1, out@.len() as int));
                j = j + 1;
            }
            proof {
                let n = self.alts@.len() as int;
                let suf = all.subrange(n, all.len() as int);
                assert(suf[0] == m);
                assert(suf.subrange(1, suf.len() as int) =~= all.subrange(n + 1, all.len() as int));
                assert(first_not_below(out@, p) == j);
            }
            let ghost before = out@;
            out.insert(j, m);
            proof {
                assert forall|a: int, b: int| 0 <= a < b < out@.len() implies
                    (#[trigger] out@[a]).mut_info.ref_aa_position <= (#[trigger] out@[b]).mut_info.ref_aa_position by {
                    if j < before.len() {
                        assert(before[j as int].mut_info.ref_aa_position >= p);
                    }
                    if a < j && b == j {
                    } else if a == j && b > j {
                        assert(out@[b] == before[b - 1]);
                        assert(before[b - 1].mut_info.ref_aa_position >= before[j as int].mut_info.ref_aa_position
                            || b - 1 == j);
                    } else if a < j && b > j {
                        assert(out@[b] == before[b - 1]);
                    } else if b < j {
                    } else {
                        assert(out@[a] == before[a - 1]);
                        assert(out@[b] == before[b - 1]);
                    }
                }
            }
        }
        proof {
            assert(self.alts@ =~= Seq::<Mutation>::empty());
            broadcast use vstd::multiset::group_multiset_axioms;
            assert(self.alts@.to_multiset() =~= Multiset::<Mutation>::empty());
            assert(out@.to_multiset() =~= old(self).alts@.to_multiset());
        }
        self.alts = out;
    }
}


/// The pieces that the indices select, skipping indices past the end.
pub open spec fn selected(pieces: Seq<Seq<char>>, idx: Seq<nat>) -> Seq<Seq<char>>
    decreases idx.len(),
{
    if idx.len() == 0 {
        Seq::empty()
    } else {
        let prev = selected(pieces, idx.drop_last());
        if idx.last() < pieces.len() { prev.push(pieces[idx.last() as int]) } else { prev }
    }
}

pub open spec fn string_views(v: Seq<String>) -> Seq<Seq<char>> {
    Seq::new(v.len(), |i: int| v[i]@)
}

fn select_pieces(pieces: &Vec<Vec<char>>, idx: &Vec<usize>) -> (r: Vec<String>)
    ensures
        string_views(r@) == selected(crate::bits::views_of(pieces@), crate::mask::as_nats(idx@)),
{
    let ghost ps = crate::bits::views_of(pieces@);
    let mut out: Vec<String> = Vec::new();
    let mut i: usize = 0;
    while i < idx.len()
        invariant
            i <= idx@.len(),
            ps == crate::bits::views_of(pieces@),
            string_views(out@) == selected(ps, crate::mask::as_nats(idx@).take(i as int)),
        decreases idx.len() - i,
    {
        let ghost nats = crate::mask::as_nats(idx@);
        assert(nats.take(i as int + 1).drop_last() =~= nats.take(i as int));
        assert(nats.take(i as int + 1).last() == idx@[i as int] as nat);
        let k = idx[i];
        if k < pieces.len() {
            let s = crate::text::string_of(pieces[k].as_slice());
            let ghost before = out@;
            out.push(s);
            assert(string_views(out@) =~= string_views(before).push(ps[k as int]));
        }
        i = i + 1;
    }
    assert(crate::mask::as_nats(idx@).take(idx@.len() as int) =~= crate::mask::as_nats(idx@));
    out
}

/// The body lines of a VCF file.
#[derive(Debug, Clone)]
pub struct VCFRecords {
    pub records: Vec<String>,
}

/// The text after the first `BCSQ=` in the INFO column (the eighth field),
/// empty when there is none.
pub open spec fn bcsq_of(line: Seq<char>) -> Seq<char> {
    let f = crate::text::split_on(line, '\t');
    if f.len() > 7 {
        match first_bcsq(f[7], 0) {
            Some(k) => f[7].subrange(k + 5, f[7].len() as int),
            None => Seq::empty(),
        }
    } else {
        Seq::empty()
    }
}

/// The first position at or after `from` where `BCSQ=` starts.
pub open spec fn first_bcsq(s: Seq<char>, from: int) -> Option<int>
    decreases s.len() - from,
{
    if from < 0 || from + 5 > s.len() {
        None
    } else if s.subrange(from, from + 5) == "BCSQ="@ {
        Some(from)
    } else {
        first_bcsq(s, from + 1)
    }
}

fn find_bcsq(s: &Vec<char>) -> (r: Option<usize>)
    ensures
        r matches Some(k) ==> first_bcsq(s@, 0) == Some(k as int) && k + 5 <= s@.len(),
        r is None ==> first_bcsq(s@, 0) is None,
{
    let tag = crate::text::chars_of("BCSQ=");
    let n = s.len();
    let mut from: usize = 0;
    if n < 5 {
        return None;
    }
    while from <= n - 5
        invariant
            n >= 5,
            n == s@.len(),
            tag@ == "BCSQ="@,
            first_bcsq(s@, 0) == first_bcsq(s@, from as int),
        decreases n - from,
    {
        proof {
            reveal_strlit("BCSQ=");
        }
        let mut same = true;
        let mut j: usize = 0;
        assert(s@.subrange(from as int, from as int) =~= tag@.subrange(0, 0));
        while j < 5
            invariant
                j <= 5,
                from + 5 <= n == s@.len(),
                tag@ == "BCSQ="@,
                tag@.len() == 5,
                same == (s@.subrange(from as int, from + j) == tag@.subrange(0, j as int)),
            decreases 5 - j,
        {
            if s[from + j] != tag[j] {
                same = false;
            }
            proof {
                if same {
                    assert(s@.subrange(from as int, from + j + 1) =~= tag@.subrange(0, j as int + 1));
                } else {
                    if s@.subrange(from as int, from + j + 1) == tag@.subrange(0, j as int + 1) {
                        assert(s@.subrange(from as int, from + j) =~= s@.subrange(from as int, from + j + 1).subrange(0, j as int));
                        assert(tag@.subrange(0, j as int) =~= tag@.subrange(0, j as int + 1).subrange(0, j as int));
                        assert(s@.subrange(from as int, from + j + 1)[j as int] == tag@.subrange(0, j as int + 1)[j as int]);
                    }
                }
            }
            j = j + 1;
        }
        assert(tag@.subrange(0, 5) =~= tag@);
        if same {
            return Some(from);
        }
        from = from + 1;
    }
    None
}

impl VCFRecords {
    pub fn new(records: Vec<String>) -> (r: Self)
        ensures r.records == records,
    {
        VCFRecords { records }
    }

    pub fn get_records(&self) -> (r: &Vec<String>)
        ensures r == &self.records,
    {
        &self.records
    }

    /// The consequences of each line (see `bcsq_of`).
    pub fn get_consequences_vector(&self) -> (r: Vec<String>)
        ensures
            r@.len() == self.records@.len(),
            forall|k: int| 0 <= k < r@.len() ==> (#[trigger] r@[k])@ == bcsq_of(self.records@[k]@),
    {
        let mut out: Vec<String> = Vec::new();
        let mut k: usize = 0;
        while k < self.records.len()
            invariant
                k <= self.records@.len(),
                out@.len() == k,
                forall|i: int| 0 <= i < k ==> (#[trigger] out@[i])@ == bcsq_of(self.records@[i]@),
            decreases self.records.len() - k,
        {
            let v = crate::text::chars_of(self.records[k].as_str());
            let f = crate::text::split_chars(&v, '\t');
            let mut text: Vec<char> = Vec::new();
            if f.len() > 7 {
                match find_bcsq(&f[7]) {
                    Some(p) => {
                        let l7 = f[7].len();
                        assert(p + 5 <= l7);
                        let mut j: usize = p + 5;
                        while j < f[7].len()
                            invariant
                                f@.len() > 7,
                                p + 5 <= j <= f@[7]@.len(),
                                text@ == f@[7]@.subrange(p + 5, j as int),
                            decreases f@[7]@.len() - j,
                        {
                            text.push(f[7][j]);
                            j = j + 1;
                            assert(text@ =~= f@[7]@.subrange(p + 5, j as int));
                        }
                    },
                    None => {},
                }
            }
            out.push(crate::text::string_of(text.as_slice()));
            k = k + 1;
        }
        out
    }

    /// The sample columns of every line, gathered per sample: entry `p` holds
    /// the field of sample `p` on each line that has one, for the first
    /// `num_probands` samples (see `sample_column`).
    pub fn get_patient_fields(&self, num_probands: usize) -> (r: Vec<Vec<String>>)
        ensures
            r@.len() == num_probands,
            forall|p: int| 0 <= p < num_probands ==> string_views((#[trigger] r@[p])@) == sample_column(self.records@, p),
    {
        let mut lines: Vec<Vec<Vec<char>>> = Vec::new();
        let mut k: usize = 0;
        while k < self.records.len()
            invariant
                k <= self.records@.len(),
                lines@.len() == k,
                forall|j: int| 0 <= j < k ==> crate::bits::views_of((#[trigger] lines@[j])@)
                    == crate::text::split_on(self.records@[j]@, '\t'),
            decreases self.records.len() - k,
        {
            let v = crate::text::chars_of(self.records[k].as_str());
            let f = crate::text::split_chars(&v, '\t');
            assert(crate::bits::views_of(f@) =~= crate::text::split_on(self.records@[k as int]@, '\t'));
            lines.push(f);
            k = k + 1;
        }
        let mut res: Vec<Vec<String>> = Vec::new();
        let mut p: usize = 0;
        while p < num_probands
            invariant
                p <= num_probands,
                lines@.len() == self.records@.len(),
                forall|j: int| 0 <= j < lines@.len() ==> crate::bits::views_of((#[trigger] lines@[j])@)
                    == crate::text::split_on(self.records@[j]@, '\t'),
                res@.len() == p,
                forall|q: int| 0 <= q < p ==> string_views((#[trigger] res@[q])@) == sample_column(self.records@, q),
            decreases num_probands - p,
        {
            let mut column: Vec<String> = Vec::new();
            let mut k: usize = 0;
            while k < lines.len()
                invariant
                    k <= lines@.len(),
                    lines@.len() == self.records@.len(),
                    forall|j: int| 0 <= j < lines@.len() ==> crate::bits::views_of((#[trigger] lines@[j])@)
                        == crate::text::split_on(self.records@[j]@, '\t'),
                    string_views(column@) == sample_column(self.records@.take(k as int), p as int),
                decreases lines.len() - k,
            {
                assert(self.records@.take(k as int + 1).drop_last() =~= self.records@.take(k as int));
                assert(self.records@.take(k as int + 1).last() == self.records@[k as int]);
                let lk = lines[k].len();
                assert(crate::bits::views_of(lines@[k as int]@).len() == lk);
                let ghost before = column@;
                if lk > 9 && p < lk - 9 {
                    column.push(crate::text::string_of(lines[k][p + 9].as_slice()));
                    assert(string_views(column@) =~= string_views(before).push(lines@[k as int]@[p + 9]@));
                }
                k = k + 1;
            }
            assert(self.records@.take(lines@.len() as int) =~= self.records@);
            res.push(column);
            p = p + 1;
        }
        res
    }

    /// The supported consequences of one sample, per haplotype, over all sites:
    /// site `k` pairs the consequences `consequences[k]` with the sample's field
    /// `proband_fields[k]` (see `sample_effects`). Fails exactly when a site's
    /// bitmask is negative or not a list of `u32` words (see `site_ok`).
    pub fn decode_back(consequences: &Vec<String>, proband_fields: &Vec<String>)
        -> (r: Result<(Vec<String>, Vec<String>), String>)
        ensures
            ({
                let cv = string_views(consequences@);
                let fv = string_views(proband_fields@);
                let n = min_len(cv.len() as int, fv.len() as int);
                &&& r is Ok <==> sample_ok(cv, fv, n)
                &&& r matches Ok((h1, h2)) ==> string_views(h1@) == sample_effects(cv, fv, 0, n)
                    && string_views(h2@) == sample_effects(cv, fv, 1, n)
            }),
    {
        let ghost cv = string_views(consequences@);
        let ghost fv = string_views(proband_fields@);
        let mut h1: Vec<String> = Vec::new();
        let mut h2: Vec<String> = Vec::new();
        let mut k: usize = 0;
        assert(string_views(h1@) =~= sample_effects(cv, fv, 0, 0));
        assert(string_views(h2@) =~= sample_effects(cv, fv, 1, 0));
        while k < consequences.len() && k < proband_fields.len()
            invariant
                k <= consequences@.len(),
                k <= proband_fields@.len(),
                cv == string_views(consequences@),
                fv == string_views(proband_fields@),
                sample_ok(cv, fv, k as int),
                string_views(h1@) == sample_effects(cv, fv, 0, k as int),
                string_views(h2@) == sample_effects(cv, fv, 1, k as int),
            decreases consequences.len() - k,
        {
            assert(fv[k as int] == proband_fields@[k as int]@ && cv[k as int] == consequences@[k as int]@);
            let mask_text = match crate::bits::get_bit_mask_checked(&proband_fields[k]) {
                Ok(m) => m,
                Err(e) => {
                    assert(!site_ok(cv[k as int], fv[k as int]));
                    return Err(e);
                },
            };
            if !BitMask::is_valid_text(&mask_text) {
                assert(!site_ok(cv[k as int], fv[k as int]));
                return Err("a bitmask word is not a u32".to_owned());
            }
            let mask = BitMask::from_string(&mask_text);
            let (e1, e2) = match &mask.bitmask_elements {
                None => (Vec::new(), Vec::new()),
                Some(w) => {
                    if w.len() > (usize::MAX - 16) / 15 {
                        assert(!site_ok(cv[k as int], fv[k as int]));
                        return Err("the bitmask is too long".to_owned());
                    }
                    match mask.get_indices() {
                        Some((i1, i2)) => {
                            let v = crate::text::chars_of(consequences[k].as_str());
                            let pieces = crate::text::split_chars(&v, ',');
                            assert(crate::bits::views_of(pieces@) =~= crate::text::split_on(cv[k as int], ','));
                            (select_pieces(&pieces, &i1), select_pieces(&pieces, &i2))
                        },
                        None => (Vec::new(), Vec::new()),
                    }
                },
            };
            proof {
                assert(string_views(e1@) =~= site_selection(cv[k as int], fv[k as int], 0));
                assert(string_views(e2@) =~= site_selection(cv[k as int], fv[k as int], 1));
            }
            keep_supported(&e1, &mut h1);
            keep_supported(&e2, &mut h2);
            k = k + 1;
        }
        Ok((h1, h2))
    }

    /// The supported consequences of every sample, per haplotype (see `row_effects`);
    /// fails exactly when a sample has a bad bitmask at some site.
    pub fn get_csq_per_patient(&self, num_probands: usize) -> (r: Result<Vec<(Vec<String>, Vec<String>)>, String>)
        ensures
            r is Ok <==> forall|p: int| 0 <= p < num_probands ==> #[trigger] row_ok(self.records@, p),
            r matches Ok(v) ==> v@.len() == num_probands && forall|p: int| 0 <= p < num_probands ==>
                string_views((#[trigger] v@[p]).0@) == row_effects(self.records@, p, 0)
                && string_views(v@[p].1@) == row_effects(self.records@, p, 1),
    {
        let consequences = self.get_consequences_vector();
        assert(string_views(consequences@) =~= bcsq_column(self.records@));
        let table = self.get_patient_fields(num_probands);
        let mut out: Vec<(Vec<String>, Vec<String>)> = Vec::new();
        let mut p: usize = 0;
        while p < table.len()
            invariant
                p <= table@.len(),
                table@.len() == num_probands,
                string_views(consequences@) == bcsq_column(self.records@),
                forall|q: int| 0 <= q < num_probands ==> string_views((#[trigger] table@[q])@) == sample_column(self.records@, q),
                out@.len() == p,
                forall|q: int| 0 <= q < p ==> #[trigger] row_ok(self.records@, q),
                forall|q: int| 0 <= q < p ==> string_views((#[trigger] out@[q]).0@) == row_effects(self.records@, q, 0)
                    && string_views(out@[q].1@) == row_effects(self.records@, q, 1),
            decreases table.len() - p,
        {
            assert(string_views(table@[p as int]@) == sample_column(self.records@, p as int));
            match VCFRecords::decode_back(&consequences, &table[p]) {
                Ok(x) => out.push(x),
                Err(e) => {
                    assert(!row_ok(self.records@, p as int));
                    return Err(e);
                },
            }
            p = p + 1;
        }
        Ok(out)
    }

    /// Routes the effects of one site to the two haplotypes (see `extract_effects`).
    pub fn extract_effects(csq: &String, bitmask: &String) -> (r: (Vec<String>, Vec<String>))
        requires
            crate::bits::mask_words(bitmask@) is Some,
            crate::bits::mask_words(bitmask@)->0 matches Some(w) ==> 15 * w.len() + 16 <= usize::MAX,
        ensures
            crate::bits::mask_words(bitmask@)->0 is None ==> r.0@.len() == 0 && r.1@.len() == 0,
            crate::bits::mask_words(bitmask@)->0 matches Some(w) ==>
                string_views(r.0@) == selected(crate::text::split_on(csq@, ','), crate::mask::decode_words(w, 0))
                && string_views(r.1@) == selected(crate::text::split_on(csq@, ','), crate::mask::decode_words(w, 1)),
    {
        extract_effects(csq, bitmask)
    }
}

/// Appends to `out` the consequences of `effects` whose kind is supported.
fn keep_supported(effects: &Vec<String>, out: &mut Vec<String>)
    ensures
        string_views(final(out)@) == string_views(old(out)@) + supported_only(string_views(effects@)),
{
    let mut i: usize = 0;
    let ghost ev = string_views(effects@);
    assert(string_views(out@) =~= string_views(old(out)@) + supported_only(ev.take(0)));
    while i < effects.len()
        invariant
            i <= effects@.len(),
            ev == string_views(effects@),
            string_views(out@) == string_views(old(out)@) + supported_only(ev.take(i as int)),
        decreases effects.len() - i,
    {
        assert(ev.take(i as int + 1).drop_last() =~= ev.take(i as int));
        assert(ev.take(i as int + 1).last() == effects@[i as int]@);
        let kind = crate::parser::get_type(&effects[i]);
        let ghost before = out@;
        if crate::mutation::MutationType::from_str(kind.as_str()).is_ok() {
            out.push(effects[i].clone());
            assert(string_views(out@) =~= string_views(before).push(effects@[i as int]@));
        }
        i = i + 1;
    }
    assert(ev.take(ev.len() as int) =~= ev);
}

/// The consequences whose kind is supported, in order.
pub open spec fn supported_only(es: Seq<Seq<char>>) -> Seq<Seq<char>>
    decreases es.len(),
{
    if es.len() == 0 {
        Seq::empty()
    } else {
        supported_only(es.drop_last()) + if mutation_type_of(crate::text::split_on(es.last(), '|')[0]) is Some {
            seq![es.last()]
        } else {
            Seq::empty()
        }
    }
}

pub open spec fn min_len(a: int, b: int) -> int {
    if a < b { a } else { b }
}

/// Whether a sample's genotype field at a site has a usable bitmask: not
/// negative, every word a `u32`, and not too long to index.
pub open spec fn site_ok(csq: Seq<char>, field: Seq<char>) -> bool {
    bitmask_text(field) matches Some(m) && mask_words(m) matches Some(o)
        && (o matches Some(w) ==> w.len() <= (usize::MAX - 16) / 15)
}

/// The consequences of a site that the bitmask selects for haplotype `hap`.
pub open spec fn site_selection(csq: Seq<char>, field: Seq<char>, hap: nat) -> Seq<Seq<char>> {
    match mask_words(bitmask_text(field)->0) {
        Some(Some(w)) => selected(crate::text::split_on(csq, ','), decode_words(w, hap)),
        _ => Seq::empty(),
    }
}

/// The supported consequences the first `k` sites give haplotype `hap`, in order.
pub open spec fn sample_effects(csqs: Seq<Seq<char>>, fields: Seq<Seq<char>>, hap: nat, k: int) -> Seq<Seq<char>>
    decreases k,
{
    if k <= 0 {
        Seq::empty()
    } else {
        sample_effects(csqs, fields, hap, k - 1) + supported_only(site_selection(csqs[k - 1], fields[k - 1], hap))
    }
}

/// Every one of the first `k` sites has a usable bitmask.
pub open spec fn sample_ok(csqs: Seq<Seq<char>>, fields: Seq<Seq<char>>, k: int) -> bool {
    forall|j: int| 0 <= j < k ==> #[trigger] site_ok(csqs[j], fields[j])
}

/// The field of sample `p` on each line that has one.
pub open spec fn sample_column(recs: Seq<String>, p: int) -> Seq<Seq<char>>
    decreases recs.len(),
{
    if recs.len() == 0 {
        Seq::empty()
    } else {
        let f = crate::text::split_on(recs.last()@, '\t');
        sample_column(recs.drop_last(), p) + if p + 9 < f.len() { seq![f[p + 9]] } else { Seq::empty() }
    }
}

/// The consequences of each line.
pub open spec fn bcsq_column(recs: Seq<String>) -> Seq<Seq<char>> {
    Seq::new(recs.len(), |k: int| bcsq_of(recs[k]@))
}

/// Every site of sample `p` has a usable bitmask.
pub open spec fn row_ok(recs: Seq<String>, p: int) -> bool {
    sample_ok(bcsq_column(recs), sample_column(recs, p),
        min_len(recs.len() as int, sample_column(recs, p).len() as int))
}

/// The supported consequences of sample `p` for haplotype `hap`.
pub open spec fn row_effects(recs: Seq<String>, p: int, hap: nat) -> Seq<Seq<char>> {
    sample_effects(bcsq_column(recs), sample_column(recs, p), hap,
        min_len(recs.len() as int, sample_column(recs, p).len() as int))
}

/// Routes the effects of one site to the two haplotypes: the bitmask selects,
/// by index, among the comma-separated consequences of the site (an index past
/// the last one selects nothing).
pub fn extract_effects(csq: &String, bitmask: &String) -> (r: (Vec<String>, Vec<String>))
    requires
        crate::bits::mask_words(bitmask@) is Some,
        crate::bits::mask_words(bitmask@)->0 matches Some(w) ==> 15 * w.len() + 16 <= usize::MAX,
    ensures
        crate::bits::mask_words(bitmask@)->0 is None ==> r.0@.len() == 0 && r.1@.len() == 0,
        crate::bits::mask_words(bitmask@)->0 matches Some(w) ==>
            string_views(r.0@) == selected(crate::text::split_on(csq@, ','), crate::mask::decode_words(w, 0))
            && string_views(r.1@) == selected(crate::text::split_on(csq@, ','), crate::mask::decode_words(w, 1)),
{
    let mask = BitMask::from_string(bitmask);
    match mask.get_indices() {
        None => (Vec::new(), Vec::new()),
        Some((h1, h2)) => {
            let v = crate::text::chars_of(csq.as_str());
            let pieces = crate::text::split_chars(&v, ',');
            assert(crate::bits::views_of(pieces@) =~= crate::text::split_on(csq@, ','));
            (select_pieces(&pieces, &h1), select_pieces(&pieces, &h2))
        },
    }
}

} // verus!
