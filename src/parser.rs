use vstd::prelude::*;
use crate::text::{chars_of, count_char, count_in, is_digit, split_chars, split_on, string_of};
use crate::mutation::MutationInfo;

verus! {

/// The decimal digits of `s`, in order.
pub open spec fn keep_digits(s: Seq<char>) -> Seq<char>
    decreases s.len(),
{
    if s.len() == 0 {
        s
    } else if is_digit(s.last()) {
        keep_digits(s.drop_last()).push(s.last())
    } else {
        keep_digits(s.drop_last())
    }
}

/// The characters of `s` that are not decimal digits, in order.
pub open spec fn drop_digits(s: Seq<char>) -> Seq<char>
    decreases s.len(),
{
    if s.len() == 0 {
        s
    } else if is_digit(s.last()) {
        drop_digits(s.drop_last())
    } else {
        drop_digits(s.drop_last()).push(s.last())
    }
}

/// The value of a string of decimal digits.
pub open spec fn decimal(d: Seq<char>) -> nat
    decreases d.len(),
{
    if d.len() == 0 {
        0
    } else {
        decimal(d.drop_last()) * 10 + ((d.last() as nat) - ('0' as nat)) as nat
    }
}

/// A position followed by residues, such as `35KTEST`: the position is the
/// number its digits spell (it must fit 16 bits), the residues are the other
/// characters, `*` when there are none. A `-` anywhere is refused.
pub open spec fn seq_position(s: Seq<char>) -> Option<SeqPosition> {
    if count_char(s, '-') > 0 || keep_digits(s).len() == 0 || decimal(keep_digits(s)) > 65535 {
        None
    } else {
        Some(SeqPosition {
            pos: decimal(keep_digits(s)),
            residues: if drop_digits(s).len() == 0 { seq!['*'] } else { drop_digits(s) },
        })
    }
}

/// A position and the residues that follow it.
pub struct SeqPosition {
    pub pos: nat,
    pub residues: Seq<char>,
}

/// An amino-acid change such as `32Q>32*`, read into its parts.
pub struct AaField {
    pub ref_pos: nat,
    pub ref_seq: Seq<char>,
    pub mut_pos: nat,
    pub mut_seq: Seq<char>,
}

/// The parts of an amino-acid change: two sides split on `>`, each a 1-based
/// position and residues.
pub open spec fn aa_field(s: Seq<char>) -> Option<AaField> {
    let pieces = split_on(s, '>');
    if pieces.len() != 2 {
        None
    } else {
        match (seq_position(pieces[0]), seq_position(pieces[1])) {
            (Some(a), Some(b)) => if a.pos >= 1 && b.pos >= 1 {
                Some(AaField { ref_pos: a.pos, ref_seq: a.residues, mut_pos: b.pos, mut_seq: b.residues })
            } else {
                None
            },
            _ => None,
        }
    }
}

proof fn lemma_decimal_grows(d: Seq<char>, i: int)
    requires
        0 <= i <= d.len(),
        forall|k: int| 0 <= k < d.len() ==> is_digit(#[trigger] d[k]),
    ensures
        decimal(d.subrange(0, i)) <= decimal(d),
    decreases d.len(),
{
    if i < d.len() {
        assert(d.drop_last() =~= d.subrange(0, d.len() - 1));
        assert(d.subrange(0, i) =~= d.drop_last().subrange(0, i));
        lemma_decimal_grows(d.drop_last(), i);
    } else {
        assert(d.subrange(0, i) =~= d);
    }
}

proof fn lemma_digits_are_digits(s: Seq<char>)
    ensures
        forall|k: int| 0 <= k < keep_digits(s).len() ==> is_digit(#[trigger] keep_digits(s)[k]),
    decreases s.len(),
{
    if s.len() > 0 {
        lemma_digits_are_digits(s.drop_last());
        let p = keep_digits(s.drop_last());
        if is_digit(s.last()) {
            assert forall|k: int| 0 <= k < p.len() + 1 implies is_digit(#[trigger] p.push(s.last())[k]) by {
                if k < p.len() {
                    assert(p.push(s.last())[k] == p[k]);
                }
            }
        }
    }
}

/// Reads a position followed by residues, such as `35KTEST` into `(35, "KTEST")`.
pub fn parse_amino_acid_seq_position(input_seq: &str) -> (r: Result<(u16, String), String>)
    ensures
        r is Ok <==> seq_position(input_seq@) is Some,
        r matches Ok((p, q)) ==> p as nat == seq_position(input_seq@)->0.pos
            && q@ == seq_position(input_seq@)->0.residues,
{
    let v = chars_of(input_seq);
    if count_in(&v, '-') != 0 {
        return Err("a position may not hold a '-' sign".to_owned());
    }
    let mut digits: Vec<char> = Vec::new();
    let mut rest: Vec<char> = Vec::new();
    let mut i: usize = 0;
    while i < v.len()
        invariant
            i <= v@.len(),
            digits@ == keep_digits(v@.subrange(0, i as int)),
            rest@ == drop_digits(v@.subrange(0, i as int)),
        decreases v.len() - i,
    {
        assert(v@.subrange(0, i as int + 1).drop_last() =~= v@.subrange(0, i as int));
        let c = v[i];
        if '0' <= c && c <= '9' {
            digits.push(c);
        } else {
            rest.push(c);
        }
        i = i + 1;
    }
    assert(v@.subrange(0, v@.len() as int) =~= v@);
    if digits.len() == 0 {
        return Err("no position was found".to_owned());
    }
    proof {
        lemma_digits_are_digits(v@);
    }
    let mut value: u32 = 0;
    let mut j: usize = 0;
    while j < digits.len()
        invariant
            j <= digits@.len(),
            value as nat == decimal(digits@.subrange(0, j as int)),
            value <= 65535,
            digits@ == keep_digits(input_seq@),
            count_char(input_seq@, '-') == 0,
            forall|k: int| 0 <= k < digits@.len() ==> is_digit(#[trigger] digits@[k]),
        decreases digits.len() - j,
    {
        assert(digits@.subrange(0, j as int + 1).drop_last() =~= digits@.subrange(0, j as int));
        let d = digits[j];
        assert(is_digit(digits@[j as int]));
        let dv: u32 = (d as u32) - ('0' as u32);
        assert(digits@.subrange(0, j as int + 1).last() == d);
        value = value * 10 + dv;
        assert(value as nat == decimal(digits@.subrange(0, j as int + 1)));
        j = j + 1;
        if value > 65535 {
            proof {
                lemma_decimal_grows(digits@, j as int);
            }
            return Err("the position does not fit 16 bits".to_owned());
        }
    }
    assert(digits@.subrange(0, digits@.len() as int) =~= digits@);
    let sequence = if rest.len() == 0 {
        let star = vec!['*'];
        assert(star@ =~= seq!['*']);
        string_of(star.as_slice())
    } else {
        string_of(rest.as_slice())
    };
    Ok((value as u16, sequence))
}

/// Reads an amino-acid change such as `32Q>32*` into 0-based positions and classified sides.
pub fn parse_amino_acid_field(input_string: &String) -> (r: Result<MutationInfo, String>)
    ensures
        r is Ok <==> aa_field(input_string@) is Some,
        r is Ok ==> ({
            let f = aa_field(input_string@)->0;
            &&& r->Ok_0.ref_aa_position == f.ref_pos - 1
            &&& r->Ok_0.mut_aa_position == f.mut_pos - 1
            &&& crate::mutation::classified_as(f.ref_seq, r->Ok_0.ref_aa)
            &&& crate::mutation::classified_as(f.mut_seq, r->Ok_0.mut_aa)
        }),
{
    let v = chars_of(input_string.as_str());
    let pieces = split_chars(&v, '>');
    if pieces.len() != 2 {
        return Err("an amino-acid change needs exactly two sides".to_owned());
    }
    let left = string_of(pieces[0].as_slice());
    let right = string_of(pieces[1].as_slice());
    let (ref_pos, ref_seq) = match parse_amino_acid_seq_position(left.as_str()) {
        Ok(x) => x,
        Err(e) => return Err(e),
    };
    let (mut_pos, mut_seq) = match parse_amino_acid_seq_position(right.as_str()) {
        Ok(x) => x,
        Err(e) => return Err(e),
    };
    if ref_pos == 0 || mut_pos == 0 {
        return Err("positions are 1-based".to_owned());
    }
    proof {
        lemma_seq_position_nonempty(left@);
        lemma_seq_position_nonempty(right@);
    }
    Ok(MutationInfo::new(ref_pos, mut_pos, ref_seq, mut_seq))
}

proof fn lemma_seq_position_nonempty(s: Seq<char>)
    requires
        seq_position(s) is Some,
    ensures
        seq_position(s)->0.residues.len() > 0,
{
}


/// The three fields the compiler reads from a consequence string
/// `kind|gene|transcript|biotype|strand|aa_change|dna_change`: kind, transcript
/// and amino-acid change, for protein-coding transcripts only. A start loss
/// with fewer fields gets the change `1M>1*`.
pub open spec fn csq_fields(s: Seq<char>) -> Option<Seq<Seq<char>>> {
    let ps = split_on(s, '|');
    if count_char(s, '|') == 6 {
        if ps[3] == "protein_coding"@ { Some(seq![ps[0], ps[2], ps[5]]) } else { None }
    } else if ps[0] == "start_lost"@ && ps.len() >= 3 {
        Some(seq![ps[0], ps[2], "1M>1*"@])
    } else {
        None
    }
}

/// Splits a consequence string into kind, transcript id and amino-acid change.
pub fn split_csq_string(input_string: &String) -> (r: Result<Vec<String>, String>)
    ensures
        r is Ok <==> csq_fields(input_string@) is Some,
        r matches Ok(v) ==> v@.len() == 3 && forall|k: int| 0 <= k < 3 ==> #[trigger] v@[k]@ == csq_fields(input_string@)->0[k],
{
    let v = chars_of(input_string.as_str());
    let ps = split_chars(&v, '|');
    proof {
        crate::text::lemma_split_nonempty(v@, '|');
    }
    let first = string_of(ps[0].as_slice());
    if count_in(&v, '|') == 6 {
        let biotype = string_of(ps[3].as_slice());
        if !crate::text::same_text(biotype.as_str(), "protein_coding") {
            return Err("not a protein-coding transcript".to_owned());
        }
        let mut out: Vec<String> = Vec::new();
        out.push(first);
        out.push(string_of(ps[2].as_slice()));
        out.push(string_of(ps[5].as_slice()));
        return Ok(out);
    }
    if crate::text::same_text(first.as_str(), "start_lost") && ps.len() >= 3 {
        let mut out: Vec<String> = Vec::new();
        out.push(first);
        out.push(string_of(ps[2].as_slice()));
        out.push("1M>1*".to_owned());
        return Ok(out);
    }
    Err("a consequence needs seven fields".to_owned())
}

/// The kind of a consequence string: its first `|`-separated field.
pub fn get_type(mut_type: &String) -> (r: String)
    ensures
        r@ == split_on(mut_type@, '|')[0],
{
    let v = chars_of(mut_type.as_str());
    let ps = split_chars(&v, '|');
    proof {
        crate::text::lemma_split_nonempty(v@, '|');
    }
    string_of(ps[0].as_slice())
}

} // verus!
