use vstd::prelude::*;
use crate::text::{chars_of, count_char, count_in, split_chars, split_on, string_of};
use crate::mutation::{mutation_type_of, MutationType};
use crate::fasta::FastaFile;
use crate::genome::Probands;
use crate::vcf::VCFRecords;

verus! {

/// Whether a consequence has all seven fields and a supported kind.
pub open spec fn csq_supported(s: Seq<char>) -> bool {
    count_char(s, '|') == 6 && mutation_type_of(split_on(s, '|')[0]) is Some
}

/// Whether one of the consequences is supported.
pub open spec fn any_supported(ps: Seq<Seq<char>>) -> bool
    decreases ps.len(),
{
    ps.len() > 0 && (any_supported(ps.drop_last()) || csq_supported(ps.last()))
}

pub open spec fn starts_with(s: Seq<char>, p: Seq<char>) -> bool {
    s.len() >= p.len() && s.subrange(0, p.len() as int) == p
}

/// The first of the parts that starts with `BCSQ=`.
pub open spec fn first_bcsq_part(parts: Seq<Seq<char>>) -> Option<Seq<char>>
    decreases parts.len(),
{
    if parts.len() == 0 {
        None
    } else if starts_with(parts[0], "BCSQ="@) {
        Some(parts[0])
    } else {
        first_bcsq_part(parts.subrange(1, parts.len() as int))
    }
}

/// Whether a VCF body line carries a supported consequence in the `BCSQ=`
/// entry of its INFO column.
pub open spec fn line_supported(line: Seq<char>) -> bool {
    let fields = split_on(line, '\t');
    fields.len() >= 8 && match first_bcsq_part(split_on(fields[7], ';')) {
        Some(p) => split_on(p, '=').len() >= 2 && any_supported(split_on(split_on(p, '=')[1], ',')),
        None => false,
    }
}

/// Whether a consequence has all seven fields and a supported kind.
pub fn is_supported_csq(csq_str: &str) -> (r: bool)
    ensures
        r == csq_supported(csq_str@),
{
    let v = chars_of(csq_str);
    if count_in(&v, '|') != 6 {
        return false;
    }
    let ps = split_chars(&v, '|');
    proof {
        crate::text::lemma_split_nonempty(v@, '|');
    }
    let kind = string_of(ps[0].as_slice());
    MutationType::from_str(kind.as_str()).is_ok()
}

fn is_bcsq_part(p: &Vec<char>) -> (r: bool)
    ensures
        r == starts_with(p@, "BCSQ="@),
{
    has_prefix(p, "BCSQ=")
}

/// Whether a VCF body line carries a supported consequence (see `line_supported`).
pub fn return_if_supported(line: &String) -> (r: bool)
    ensures
        r == line_supported(line@),
{
    let v = chars_of(line.as_str());
    let fields = split_chars(&v, '\t');
    if fields.len() < 8 {
        return false;
    }
    let parts = split_chars(&fields[7], ';');
    let ghost ps = split_on(fields@[7]@, ';');
    let mut i: usize = 0;
    assert(ps.subrange(0, ps.len() as int) =~= ps);
    while i < parts.len()
        invariant
            i <= parts@.len() == ps.len(),
            forall|k: int| 0 <= k < parts@.len() ==> #[trigger] parts@[k]@ == ps[k],
            first_bcsq_part(ps) == first_bcsq_part(ps.subrange(i as int, ps.len() as int)),
            fields@.len() >= 8,
            ps == split_on(fields@[7]@, ';'),
            fields@[7]@ == split_on(line@, '\t')[7],
            fields@.len() == split_on(line@, '\t').len(),
        decreases parts.len() - i,
    {
        let ghost rest = ps.subrange(i as int, ps.len() as int);
        assert(rest.subrange(1, rest.len() as int) =~= ps.subrange(i as int + 1, ps.len() as int));
        assert(rest[0] == parts@[i as int]@);
        if is_bcsq_part(&parts[i]) {
            let halves = split_chars(&parts[i], '=');
            if halves.len() < 2 {
                return false;
            }
            let effects = split_chars(&halves[1], ',');
            let ghost es = split_on(halves@[1]@, ',');
            let ghost part = parts@[i as int]@;
            assert(first_bcsq_part(rest) == Some(part));
            let mut j: usize = 0;
            while j < effects.len()
                invariant
                    split_on(line@, '\t').len() >= 8,
                    first_bcsq_part(split_on(split_on(line@, '\t')[7], ';')) == Some(part),
                    split_on(part, '=').len() >= 2,
                    es == split_on(split_on(part, '=')[1], ','),
                    j <= effects@.len() == es.len(),
                    forall|k: int| 0 <= k < effects@.len() ==> #[trigger] effects@[k]@ == es[k],
                    !any_supported(es.take(j as int)),
                decreases effects.len() - j,
            {
                assert(es.take(j as int + 1).drop_last() =~= es.take(j as int));
                let text = string_of(effects[j].as_slice());
                assert(es.take(j as int + 1).last() == es[j as int]);
                if is_supported_csq(text.as_str()) {
                    proof {
                        lemma_any_supported_prefix(es, j as int + 1);
                    }
                    return true;
                }
                j = j + 1;
            }
            assert(es.take(es.len() as int) =~= es);
            return false;
        }
        i = i + 1;
    }
    false
}

proof fn lemma_any_supported_prefix(es: Seq<Seq<char>>, j: int)
    requires
        0 <= j <= es.len(),
        any_supported(es.take(j)),
    ensures
        any_supported(es),
    decreases es.len() - j,
{
    if j < es.len() {
        assert(es.take(j + 1).drop_last() =~= es.take(j));
        lemma_any_supported_prefix(es, j + 1);
    } else {
        assert(es.take(j) =~= es);
    }
}

/// Whether `p` starts with the characters of `tag`.
fn has_prefix(p: &Vec<char>, tag: &str) -> (r: bool)
    ensures
        r == starts_with(p@, tag@),
{
    let t = chars_of(tag);
    if p.len() < t.len() {
        return false;
    }
    let mut i: usize = 0;
    while i < t.len()
        invariant
            i <= t@.len() <= p@.len(),
            t@ == tag@,
            forall|k: int| 0 <= k < i ==> p@[k] == t@[k],
        decreases t.len() - i,
    {
        if p[i] != t[i] {
            assert(p@.subrange(0, t@.len() as int)[i as int] != t@[i as int]);
            return false;
        }
        i = i + 1;
    }
    assert(p@.subrange(0, t@.len() as int) =~= t@);
    true
}

/// The first line that starts with `#CHROM`.
pub open spec fn header_line(lines: Seq<String>) -> Option<Seq<char>>
    decreases lines.len(),
{
    if lines.len() == 0 {
        None
    } else if starts_with(lines[0]@, "#CHROM"@) {
        Some(lines[0]@)
    } else {
        header_line(lines.subrange(1, lines.len() as int))
    }
}

/// The columns of the header line, without one trailing newline or tab.
pub open spec fn header_columns(h: Seq<char>) -> Seq<Seq<char>> {
    let t = if h.len() > 0 && (h.last() == '\n' || h.last() == '\t') { h.drop_last() } else { h };
    split_on(t, '\t')
}

/// The sample names: the header columns from the tenth on, when there is a
/// header line with at least ten columns.
pub open spec fn proband_names(lines: Seq<String>) -> Option<Seq<Seq<char>>> {
    match header_line(lines) {
        Some(h) => if header_columns(h).len() >= 10 {
            Some(header_columns(h).subrange(9, header_columns(h).len() as int))
        } else {
            None
        },
        None => None,
    }
}

/// The sample names of a VCF file (see `proband_names`); fails when there is
/// no header line or it names no sample.
pub fn get_probands_names(lines: &Vec<String>) -> (r: Result<Vec<String>, String>)
    ensures
        r is Ok <==> proband_names(lines@) is Some,
        r matches Ok(v) ==> crate::vcf::string_views(v@) == proband_names(lines@)->0,
{
    let mut i: usize = 0;
    assert(lines@.subrange(0, lines@.len() as int) =~= lines@);
    while i < lines.len()
        invariant
            i <= lines@.len(),
            header_line(lines@) == header_line(lines@.subrange(i as int, lines@.len() as int)),
        decreases lines.len() - i,
    {
        let ghost rest = lines@.subrange(i as int, lines@.len() as int);
        assert(rest.subrange(1, rest.len() as int) =~= lines@.subrange(i as int + 1, lines@.len() as int));
        assert(rest[0] == lines@[i as int]);
        let mut v = chars_of(lines[i].as_str());
        if has_prefix(&v, "#CHROM") {
            let n = v.len();
            let ghost h = v@;
            if n > 0 && (v[n - 1] == '\n' || v[n - 1] == '\t') {
                v.pop();
            }
            assert(v@ == (if h.len() > 0 && (h.last() == '\n' || h.last() == '\t') { h.drop_last() } else { h }));
            let fields = split_chars(&v, '\t');
            assert(crate::bits::views_of(fields@) =~= header_columns(h));
            if fields.len() < 10 {
                return Err("the header line names no sample".to_owned());
            }
            let mut names: Vec<String> = Vec::new();
            let mut k: usize = 9;
            while k < fields.len()
                invariant
                    9 <= k <= fields@.len(),
                    crate::vcf::string_views(names@) == crate::bits::views_of(fields@).subrange(9, k as int),
                decreases fields.len() - k,
            {
                let ghost before = names@;
                names.push(string_of(fields[k].as_slice()));
                assert(crate::vcf::string_views(names@) =~= crate::vcf::string_views(before).push(fields@[k as int]@));
                assert(crate::bits::views_of(fields@)[k as int] == fields@[k as int]@);
                assert(crate::vcf::string_views(names@) =~= crate::bits::views_of(fields@).subrange(9, k as int + 1));
                k = k + 1;
            }
            return Ok(names);
        }
        i = i + 1;
    }
    Err("no header line was found".to_owned())
}

/// The lines that carry a supported consequence, in order.
pub open spec fn supported_lines(lines: Seq<String>) -> Seq<String>
    decreases lines.len(),
{
    if lines.len() == 0 {
        Seq::empty()
    } else {
        supported_lines(lines.drop_last()) + if line_supported(lines.last()@) { seq![lines.last()] } else { Seq::empty() }
    }
}

/// The lines that do not start with `#`, in order.
pub open spec fn body_lines(lines: Seq<String>) -> Seq<String>
    decreases lines.len(),
{
    if lines.len() == 0 {
        Seq::empty()
    } else {
        body_lines(lines.drop_last()) + if lines.last()@.len() > 0 && lines.last()@[0] == '#' {
            Seq::empty()
        } else {
            seq![lines.last()]
        }
    }
}

/// The body lines that carry a supported consequence; fails when there is none.
pub fn get_records(lines: Vec<String>) -> (r: Result<Vec<String>, String>)
    ensures
        r is Ok <==> supported_lines(lines@).len() > 0,
        r matches Ok(v) ==> v@ == supported_lines(lines@),
{
    let mut out: Vec<String> = Vec::new();
    let mut k: usize = 0;
    while k < lines.len()
        invariant
            k <= lines@.len(),
            out@ == supported_lines(lines@.take(k as int)),
        decreases lines.len() - k,
    {
        assert(lines@.take(k as int + 1).drop_last() =~= lines@.take(k as int));
        assert(lines@.take(k as int + 1).last() == lines@[k as int]);
        let ghost before = out@;
        if return_if_supported(&lines[k]) {
            out.push(lines[k].clone());
            assert(out@ =~= before + seq![lines@[k as int]]);
        } else {
            assert(out@ =~= before + Seq::<String>::empty());
        }
        k = k + 1;
    }
    assert(lines@.take(lines@.len() as int) =~= lines@);
    if out.len() == 0 {
        return Err("no record carries a supported consequence".to_owned());
    }
    Ok(out)
}

/// The samples and the supported body records of a VCF file given as lines.
pub fn parse_vcf_lines(lines: Vec<String>) -> (r: Result<(Probands, VCFRecords), String>)
    ensures
        r is Ok <==> proband_names(lines@) is Some && supported_lines(body_lines(lines@)).len() > 0,
        r matches Ok((p, v)) ==> crate::vcf::string_views(p.probands@) == proband_names(lines@)->0
            && v.records@ == supported_lines(body_lines(lines@)),
{
    let names = match get_probands_names(&lines) {
        Ok(n) => n,
        Err(e) => return Err(e),
    };
    let mut body: Vec<String> = Vec::new();
    let mut k: usize = 0;
    while k < lines.len()
        invariant
            k <= lines@.len(),
            body@ == body_lines(lines@.take(k as int)),
        decreases lines.len() - k,
    {
        assert(lines@.take(k as int + 1).drop_last() =~= lines@.take(k as int));
        assert(lines@.take(k as int + 1).last() == lines@[k as int]);
        let ghost before = body@;
        let v = chars_of(lines[k].as_str());
        if !(v.len() > 0 && v[0] == '#') {
            body.push(lines[k].clone());
            assert(body@ =~= before + seq![lines@[k as int]]);
        } else {
            assert(body@ =~= before + Seq::<String>::empty());
        }
        k = k + 1;
    }
    assert(lines@.take(lines@.len() as int) =~= lines@);
    let records = match get_records(body) {
        Ok(r) => r,
        Err(e) => return Err(e),
    };
    Ok((Probands::new(names), VCFRecords::new(records)))
}

/// The state while reading FASTA lines: records so far, the open header and
/// the sequence gathered under it.
pub open spec fn fasta_state(lines: Seq<String>) -> (Seq<(Seq<char>, Seq<char>)>, Seq<char>, Seq<char>)
    decreases lines.len(),
{
    if lines.len() == 0 {
        (Seq::empty(), Seq::empty(), Seq::empty())
    } else {
        let (recs, h, s) = fasta_state(lines.drop_last());
        let v = lines.last()@;
        if v.len() > 0 && v[0] == '>' {
            (if h.len() > 0 { recs.push((h, s)) } else { recs }, v.subrange(1, v.len() as int), Seq::empty())
        } else {
            (recs, h, s + v)
        }
    }
}

/// The records of FASTA lines: each `>` line opens a record named by the rest
/// of the line, the other lines are joined into its sequence; the last record
/// is always closed. A record whose name is empty is dropped when the next opens.
pub open spec fn fasta_records(lines: Seq<String>) -> Seq<(Seq<char>, Seq<char>)> {
    let (recs, h, s) = fasta_state(lines);
    recs.push((h, s))
}

pub open spec fn record_values(v: Seq<(String, String)>) -> Seq<(Seq<char>, Seq<char>)> {
    Seq::new(v.len(), |i: int| (v[i].0@, v[i].1@))
}

/// Reads a FASTA file given as lines (see `fasta_records`).
pub fn parse_fasta_lines(lines: &Vec<String>) -> (r: FastaFile)
    ensures
        record_values(r.fastarecords@) == fasta_records(lines@),
{
    let mut records: Vec<(String, String)> = Vec::new();
    let mut header: Vec<char> = Vec::new();
    let mut sequence: Vec<char> = Vec::new();
    let mut k: usize = 0;
    while k < lines.len()
        invariant
            k <= lines@.len(),
            fasta_state(lines@.take(k as int)) == (record_values(records@), header@, sequence@),
        decreases lines.len() - k,
    {
        assert(lines@.take(k as int + 1).drop_last() =~= lines@.take(k as int));
        assert(lines@.take(k as int + 1).last() == lines@[k as int]);
        let v = chars_of(lines[k].as_str());
        if v.len() > 0 && v[0] == '>' {
            if header.len() > 0 {
                let ghost before = records@;
                records.push((string_of(header.as_slice()), string_of(sequence.as_slice())));
                assert(record_values(records@) =~= record_values(before).push((header@, sequence@)));
            }
            header = Vec::new();
            sequence = Vec::new();
            let mut j: usize = 1;
            while j < v.len()
                invariant
                    1 <= j <= v@.len(),
                    header@ == v@.subrange(1, j as int),
                decreases v.len() - j,
            {
                header.push(v[j]);
                j = j + 1;
                assert(header@ =~= v@.subrange(1, j as int));
            }
        } else {
            crate::text::append_chars(&mut sequence, &v);
        }
        k = k + 1;
    }
    assert(lines@.take(lines@.len() as int) =~= lines@);
    let ghost before = records@;
    records.push((string_of(header.as_slice()), string_of(sequence.as_slice())));
    assert(record_values(records@) =~= record_values(before).push((header@, sequence@)));
    FastaFile::new(records)
}

} // verus!
