use vstd::prelude::*;
use crate::text::{chars_of, count_char, count_in, is_digit, split_chars, split_on, string_of};
use crate::parser::decimal;
use crate::mask::BitMask;

verus! {

pub open spec fn all_digits(s: Seq<char>) -> bool {
    forall|k: int| 0 <= k < s.len() ==> is_digit(#[trigger] s[k])
}

/// The value of a non-empty string of digits, when it is at most `limit`.
pub open spec fn unsigned_value(s: Seq<char>, limit: nat) -> Option<nat> {
    if s.len() > 0 && all_digits(s) && decimal(s) <= limit { Some(decimal(s)) } else { None }
}

/// The text without a leading `+`.
pub open spec fn unsigned_part(s: Seq<char>) -> Seq<char> {
    if s.len() > 0 && s[0] == '+' { s.subrange(1, s.len() as int) } else { s }
}

/// The value of a decimal `u32` as Rust writes one (an optional `+`, then digits).
pub open spec fn u32_text(s: Seq<char>) -> Option<nat> {
    unsigned_value(unsigned_part(s), 0xFFFF_FFFF)
}

/// The value of a decimal `i32` as Rust writes one (an optional sign, then digits).
pub open spec fn i32_text(s: Seq<char>) -> Option<int> {
    if s.len() > 0 && s[0] == '-' {
        match unsigned_value(s.subrange(1, s.len() as int), 0x8000_0000) {
            Some(v) => Some(-v),
            None => None,
        }
    } else {
        match unsigned_value(unsigned_part(s), 0x7FFF_FFFF) {
            Some(v) => Some(v as int),
            None => None,
        }
    }
}

proof fn lemma_decimal_prefix(d: Seq<char>, i: int)
    requires
        0 <= i <= d.len(),
        all_digits(d),
    ensures
        decimal(d.subrange(0, i)) <= decimal(d),
    decreases d.len(),
{
    if i < d.len() {
        assert(d.drop_last() =~= d.subrange(0, d.len() - 1));
        assert(d.subrange(0, i) =~= d.drop_last().subrange(0, i));
        assert(all_digits(d.drop_last())) by {
            assert forall|k: int| 0 <= k < d.drop_last().len() implies is_digit(#[trigger] d.drop_last()[k]) by {
                assert(d.drop_last()[k] == d[k]);
            }
        }
        lemma_decimal_prefix(d.drop_last(), i);
    } else {
        assert(d.subrange(0, i) =~= d);
    }
}

/// Reads `v[start..]` as digits whose value is at most `limit`.
fn read_unsigned(v: &Vec<char>, start: usize, limit: u64) -> (r: Option<u64>)
    requires
        start <= v@.len(),
        limit <= 0xFFFF_FFFF,
    ensures
        r matches Some(x) ==> unsigned_value(v@.subrange(start as int, v@.len() as int), limit as nat) == Some(x as nat),
        r is None ==> unsigned_value(v@.subrange(start as int, v@.len() as int), limit as nat) is None,
{
    let ghost d = v@.subrange(start as int, v@.len() as int);
    if start == v.len() {
        return None;
    }
    let mut value: u64 = 0;
    let mut i: usize = start;
    while i < v.len()
        invariant
            start <= i <= v@.len(),
            d == v@.subrange(start as int, v@.len() as int),
            limit <= 0xFFFF_FFFF,
            value <= limit,
            all_digits(v@.subrange(start as int, i as int)),
            value as nat == decimal(v@.subrange(start as int, i as int)),
        decreases v.len() - i,
    {
        let c = v[i];
        assert(v@.subrange(start as int, i as int + 1).drop_last() =~= v@.subrange(start as int, i as int));
        if !('0' <= c && c <= '9') {
            assert(!is_digit(d[i - start]));
            return None;
        }
        assert(all_digits(v@.subrange(start as int, i as int + 1))) by {
            let s2 = v@.subrange(start as int, i as int + 1);
            assert forall|k: int| 0 <= k < s2.len() implies is_digit(#[trigger] s2[k]) by {
                if k < s2.len() - 1 {
                    assert(s2[k] == v@.subrange(start as int, i as int)[k]);
                }
            }
        }
        value = value * 10 + ((c as u64) - ('0' as u64));
        i = i + 1;
        if value > limit {
            proof {
                assert(all_digits(d) ==> decimal(d) >= decimal(v@.subrange(start as int, i as int))) by {
                    if all_digits(d) {
                        lemma_decimal_prefix(d, i - start);
                        assert(d.subrange(0, i - start) =~= v@.subrange(start as int, i as int));
                    }
                }
            }
            return None;
        }
    }
    Some(value)
}

/// Reads a `u32` as Rust's `u32::from_str` does.
fn read_u32(v: &Vec<char>) -> (r: Option<u32>)
    ensures
        r matches Some(x) ==> u32_text(v@) == Some(x as nat),
        r is None ==> u32_text(v@) is None,
{
    let start: usize = if v.len() > 0 && v[0] == '+' { 1 } else { 0 };
    assert(v@.subrange(0, v@.len() as int) =~= v@);
    match read_unsigned(v, start, 0xFFFF_FFFF) {
        Some(x) => Some(x as u32),
        None => None,
    }
}

/// Reads an `i32` as Rust's `i32::from_str` does.
fn read_i32(v: &Vec<char>) -> (r: Option<i64>)
    ensures
        r matches Some(x) ==> i32_text(v@) == Some(x as int),
        r is None ==> i32_text(v@) is None,
{
    assert(v@.subrange(0, v@.len() as int) =~= v@);
    if v.len() > 0 && v[0] == '-' {
        match read_unsigned(v, 1, 0x8000_0000) {
            Some(x) => Some(-(x as i64)),
            None => None,
        }
    } else {
        let start: usize = if v.len() > 0 && v[0] == '+' { 1 } else { 0 };
        match read_unsigned(v, start, 0x7FFF_FFFF) {
            Some(x) => Some(x as i64),
            None => None,
        }
    }
}

/// What a bitmask text holds: `Some(None)` for no effect (empty or `0$`), the
/// single word before a final `$`, or the comma-separated words; `None` when
/// a word is not a `u32`.
pub open spec fn mask_words(s: Seq<char>) -> Option<Option<Seq<u32>>> {
    if s.len() == 0 || s == seq!['0', '$'] {
        Some(None)
    } else if s.last() == '$' {
        match u32_text(s.drop_last()) {
            Some(x) => Some(Some(seq![x as u32])),
            None => None,
        }
    } else {
        let pieces = split_on(s, ',');
        if forall|k: int| 0 <= k < pieces.len() ==> #[trigger] u32_text(pieces[k]) is Some {
            Some(Some(Seq::new(pieces.len(), |k: int| u32_text(pieces[k])->0 as u32)))
        } else {
            None
        }
    }
}

fn read_mask(input: &String) -> (r: Option<Option<Vec<u32>>>)
    ensures
        r is None <==> mask_words(input@) is None,
        r matches Some(m) ==> (m is None <==> mask_words(input@)->0 is None),
        r matches Some(Some(w)) ==> w@ == mask_words(input@)->0->0,
{
    let v = chars_of(input.as_str());
    let n = v.len();
    if n == 0 || (n == 2 && v[0] == '0' && v[1] == '$') {
        proof {
            if n == 2 {
                assert(v@ =~= seq!['0', '$']);
            }
        }
        return Some(None);
    }
    proof {
        if v@ == seq!['0', '$'] {
            assert(v@[0] == '0' && v@[1] == '$');
        }
    }
    if v[n - 1] == '$' {
        let mut head = v.clone();
        head.pop();
        assert(head@ == v@.drop_last());
        return match read_u32(&head) {
            Some(x) => {
                let mut w: Vec<u32> = Vec::new();
                w.push(x);
                assert(w@ =~= seq![x]);
                Some(Some(w))
            },
            None => None,
        };
    }
    let pieces = split_chars(&v, ',');
    let ghost sp = split_on(v@, ',');
    let mut words: Vec<u32> = Vec::new();
    let mut k: usize = 0;
    while k < pieces.len()
        invariant
            k <= pieces@.len(),
            v@ == input@,
            v@.len() > 0,
            v@ != seq!['0', '$'],
            v@.last() != '$',
            sp == split_on(v@, ','),
            pieces@.len() == sp.len(),
            forall|j: int| 0 <= j < pieces@.len() ==> #[trigger] pieces@[j]@ == sp[j],
            words@.len() == k,
            forall|j: int| 0 <= j < k ==> #[trigger] u32_text(sp[j]) is Some && words@[j] == u32_text(sp[j])->0 as u32,
        decreases pieces.len() - k,
    {
        match read_u32(&pieces[k]) {
            Some(x) => {
                words.push(x);
            },
            None => {
                assert(u32_text(sp[k as int]) is None);
                return None;
            },
        }
        k = k + 1;
    }
    assert(words@ =~= Seq::new(sp.len(), |j: int| u32_text(sp[j])->0 as u32));
    Some(Some(words))
}

impl BitMask {
    /// Reads a bitmask text (see `mask_words`).
    pub fn from_string(input_string: &String) -> (r: Self)
        requires
            mask_words(input_string@) is Some,
        ensures
            r.bitmask_elements is None <==> mask_words(input_string@)->0 is None,
            r.bitmask_elements matches Some(w) ==> w@ == mask_words(input_string@)->0->0,
    {
        match read_mask(input_string) {
            Some(m) => BitMask { bitmask_elements: m },
            None => BitMask { bitmask_elements: None },
        }
    }

    /// Whether `from_string` accepts the text: every word is a `u32`.
    pub fn is_valid_text(input_string: &String) -> (r: bool)
        ensures
            r == mask_words(input_string@) is Some,
    {
        read_mask(input_string).is_some()
    }
}

/// `s` followed by `$` when it is an `i32`, else the empty text.
pub open spec fn fields_text(s: Seq<char>) -> Seq<char> {
    if i32_text(s) is Some { s.push('$') } else { Seq::empty() }
}

/// The pieces without the trailing pieces that are `0`.
pub open spec fn strip_zero_pieces(ps: Seq<Seq<char>>) -> Seq<Seq<char>>
    decreases ps.len(),
{
    if ps.len() > 0 && ps.last() == seq!['0'] { strip_zero_pieces(ps.drop_last()) } else { ps }
}

/// The pieces joined with `sep`.
pub open spec fn join(ps: Seq<Seq<char>>, sep: char) -> Seq<char>
    decreases ps.len(),
{
    if ps.len() == 0 {
        Seq::empty()
    } else if ps.len() == 1 {
        ps[0]
    } else {
        join(ps.drop_last(), sep).push(sep) + ps.last()
    }
}

/// A comma-separated list without its trailing zeros (`3,5,0` gives `3,5`).
pub open spec fn zeros_removed(s: Seq<char>) -> Seq<char> {
    join(strip_zero_pieces(split_on(s, ',')), ',')
}

/// The bitmask of a list of words: a single non-negative `i32` gets a final `$`.
pub open spec fn single_or_none(f: Seq<char>) -> Option<Seq<char>> {
    match i32_text(f) {
        Some(v) => if v < 0 { None } else { Some(f.push('$')) },
        None => Some(Seq::empty()),
    }
}

/// The bitmask text of a sample's genotype field: its last `:`-separated part,
/// without trailing zero words, a single word marked with `$`; the empty text
/// when there is no such part or it is `.`. `None` for a negative word, which
/// an outdated consequence caller writes.
pub open spec fn bitmask_text(s: Seq<char>) -> Option<Seq<char>> {
    if count_char(s, ':') == 0 {
        Some(Seq::empty())
    } else {
        let f = split_on(s, ':').last();
        if f == seq!['.'] {
            Some(Seq::empty())
        } else if count_char(f, ',') == 0 {
            single_or_none(f)
        } else if strip_zero_pieces(split_on(f, ',')).len() > 0 && count_char(f, '-') > 0 {
            None
        } else {
            let g = zeros_removed(f);
            if g.len() == 0 {
                Some(Seq::empty())
            } else if count_char(g, ',') == 0 {
                single_or_none(g)
            } else {
                Some(g)
            }
        }
    }
}

/// Marks a field that is an `i32` with a final `$` (`3` gives `3$`); any other
/// text gives the empty text.
pub fn parse_fields(fields: String) -> (r: String)
    requires
        !(i32_text(fields@) matches Some(v) && v < 0),
    ensures
        r@ == fields_text(fields@),
{
    let mut v = chars_of(fields.as_str());
    match read_i32(&v) {
        Some(_) => {
            v.push('$');
            string_of(v.as_slice())
        },
        None => String::new(),
    }
}

fn strip_zeros_exec(pieces: &Vec<Vec<char>>) -> (m: usize)
    ensures
        m <= pieces@.len(),
        strip_zero_pieces(views_of(pieces@)) == views_of(pieces@).take(m as int),
{
    let ghost ps = views_of(pieces@);
    let mut m: usize = pieces.len();
    assert(ps.take(m as int) =~= ps);
    while m > 0 && pieces[m - 1].len() == 1 && pieces[m - 1][0] == '0'
        invariant
            m <= pieces@.len(),
            ps == views_of(pieces@),
            strip_zero_pieces(ps) == strip_zero_pieces(ps.take(m as int)),
        decreases m,
    {
        assert(ps.take(m as int).last() =~= seq!['0']);
        assert(ps.take(m as int).drop_last() =~= ps.take(m as int - 1));
        m = m - 1;
    }
    proof {
        let t = ps.take(m as int);
        if m > 0 {
            assert(t.last() == pieces@[m - 1]@);
            if t.last() == seq!['0'] {
                assert(pieces@[m - 1]@.len() == 1 && pieces@[m - 1]@[0] == '0');
            }
        }
    }
    m
}

/// The characters of each vector.
pub open spec fn views_of(v: Seq<Vec<char>>) -> Seq<Seq<char>> {
    Seq::new(v.len(), |i: int| v[i]@)
}

fn join_exec(pieces: &Vec<Vec<char>>, m: usize, sep: char) -> (r: Vec<char>)
    requires
        m <= pieces@.len(),
    ensures
        r@ == join(views_of(pieces@).take(m as int), sep),
{
    let ghost ps = views_of(pieces@);
    let mut out: Vec<char> = Vec::new();
    let mut k: usize = 0;
    while k < m
        invariant
            k <= m <= pieces@.len(),
            ps == views_of(pieces@),
            out@ == join(ps.take(k as int), sep),
        decreases m - k,
    {
        assert(ps.take(k as int + 1).drop_last() =~= ps.take(k as int));
        assert(ps.take(k as int + 1).last() == pieces@[k as int]@);
        if k > 0 {
            out.push(sep);
        }
        let ghost before = out@;
        let mut j: usize = 0;
        while j < pieces[k].len()
            invariant
                k < pieces@.len(),
                j <= pieces@[k as int]@.len(),
                out@ == before + pieces@[k as int]@.subrange(0, j as int),
            decreases pieces@[k as int]@.len() - j,
        {
            out.push(pieces[k][j]);
            j = j + 1;
            assert(out@ =~= before + pieces@[k as int]@.subrange(0, j as int));
        }
        assert(pieces@[k as int]@.subrange(0, j as int) =~= pieces@[k as int]@);
        proof {
            if k == 0 {
                assert(before =~= Seq::<char>::empty());
                assert(out@ =~= pieces@[0]@);
            }
        }
        k = k + 1;
    }
    out
}

/// Drops the trailing zero words of a comma-separated list (`3,5,0` gives `3,5`).
pub fn remove_leading_zeros(fields: String) -> (r: String)
    requires
        strip_zero_pieces(split_on(fields@, ',')).len() == 0 || count_char(fields@, '-') == 0,
    ensures
        r@ == zeros_removed(fields@),
{
    let v = chars_of(fields.as_str());
    let pieces = split_chars(&v, ',');
    assert(views_of(pieces@) =~= split_on(v@, ','));
    let m = strip_zeros_exec(&pieces);
    let out = join_exec(&pieces, m, ',');
    string_of(out.as_slice())
}

fn single_or_none_exec(f: &Vec<char>) -> (r: Option<String>)
    ensures
        r is None <==> single_or_none(f@) is None,
        r matches Some(s) ==> s@ == single_or_none(f@)->0,
{
    match read_i32(f) {
        Some(x) => if x < 0 {
            None
        } else {
            let mut g = f.clone();
            assert(g@ == f@);
            g.push('$');
            Some(string_of(g.as_slice()))
        },
        None => Some(String::new()),
    }
}

/// The bitmask text of a sample's genotype field (see `bitmask_text`), or an
/// error for the negative words an outdated consequence caller writes.
pub fn get_bit_mask_checked(input_string: &String) -> (r: Result<String, String>)
    ensures
        r is Err <==> bitmask_text(input_string@) is None,
        r matches Ok(s) ==> s@ == bitmask_text(input_string@)->0,
{
    let v = chars_of(input_string.as_str());
    if count_in(&v, ':') == 0 {
        return Ok(String::new());
    }
    let parts = split_chars(&v, ':');
    proof {
        crate::text::lemma_split_nonempty(v@, ':');
    }
    let f = &parts[parts.len() - 1];
    assert(f@ == split_on(v@, ':').last());
    if f.len() == 1 && f[0] == '.' {
        assert(f@ =~= seq!['.']);
        return Ok(String::new());
    }
    proof {
        if f@ == seq!['.'] {
            assert(f@[0] == '.');
        }
    }
    let outdated = Err("An invalid bit mask was encountered. Most likely an outdated version of csq has been used; \
        see https://github.com/samtools/bcftools/commit/1f1e7667ffc1235f31a82e2093f037338acbb4e7".to_owned());
    if count_in(f, ',') == 0 {
        return match single_or_none_exec(f) {
            Some(s) => Ok(s),
            None => outdated,
        };
    }
    let pieces = split_chars(f, ',');
    assert(views_of(pieces@) =~= split_on(f@, ','));
    let m = strip_zeros_exec(&pieces);
    if m > 0 && count_in(f, '-') != 0 {
        return outdated;
    }
    let g = join_exec(&pieces, m, ',');
    if g.len() == 0 {
        return Ok(String::new());
    }
    if count_in(&g, ',') == 0 {
        return match single_or_none_exec(&g) {
            Some(s) => Ok(s),
            None => outdated,
        };
    }
    Ok(string_of(g.as_slice()))
}

/// The bitmask text of a sample's genotype field, such as `10922,14` for
/// `0|1:...:10922,14,0,0` or `3$` for `0|1:...:3` (see `bitmask_text`).
pub fn get_bit_mask(input_string: &String) -> (r: String)
    requires
        bitmask_text(input_string@) is Some,
    ensures
        r@ == bitmask_text(input_string@)->0,
{
    match get_bit_mask_checked(input_string) {
        Ok(s) => s,
        Err(_) => String::new(),
    }
}

} // verus!
