use vstd::prelude::*;

verus! {

/// The effect indices a bitmask word selects for one haplotype (`hap` 0 or 1):
/// pairs of bits are read from the low end; pair `k` marks index `first + k`
/// when its bit `hap` is set.
pub open spec fn decode_word(x: nat, hap: nat, first: nat) -> Seq<nat>
    decreases x,
{
    if x == 0 {
        Seq::empty()
    } else {
        let here: Seq<nat> = if (x % 4) / (1 + hap) % 2 == 1 { seq![first] } else { Seq::empty() };
        here + decode_word(x / 4, hap, first + 1)
    }
}

/// The indices the words select for one haplotype; word `w` starts at index `15 * w`.
pub open spec fn decode_words(ws: Seq<u32>, hap: nat) -> Seq<nat>
    decreases ws.len(),
{
    if ws.len() == 0 {
        Seq::empty()
    } else {
        decode_words(ws.drop_last(), hap) + decode_word(ws.last() as nat, hap, 15 * (ws.len() - 1) as nat)
    }
}

pub open spec fn pow4(k: nat) -> nat
    decreases k,
{
    if k == 0 { 1 } else { 4 * pow4((k - 1) as nat) }
}

/// The sum of `4^k` over the indices `k`.
pub open spec fn sum_pow4(s: Seq<nat>) -> nat
    decreases s.len(),
{
    if s.len() == 0 { 0 } else { pow4(s[0]) + sum_pow4(s.subrange(1, s.len() as int)) }
}

/// The word that marks the indices `h1` for the first haplotype and `h2` for the second.
pub open spec fn encode_word(h1: Seq<nat>, h2: Seq<nat>) -> nat {
    sum_pow4(h1) + 2 * sum_pow4(h2)
}

proof fn lemma_sum_pow4_concat(a: Seq<nat>, b: Seq<nat>)
    ensures
        sum_pow4(a + b) == sum_pow4(a) + sum_pow4(b),
    decreases a.len(),
{
    if a.len() > 0 {
        assert((a + b).subrange(1, (a + b).len() as int) =~= a.subrange(1, a.len() as int) + b);
        lemma_sum_pow4_concat(a.subrange(1, a.len() as int), b);
    } else {
        assert(a + b =~= b);
    }
}

proof fn lemma_decode_sum(x: nat, first: nat)
    ensures
        sum_pow4(decode_word(x, 0, first)) + 2 * sum_pow4(decode_word(x, 1, first)) == x * pow4(first),
    decreases x,
{
    if x > 0 {
        lemma_decode_sum(x / 4, first + 1);
        let h0: Seq<nat> = if (x % 4) / 1 % 2 == 1 { seq![first] } else { Seq::empty() };
        let h1: Seq<nat> = if (x % 4) / 2 % 2 == 1 { seq![first] } else { Seq::empty() };
        lemma_sum_pow4_concat(h0, decode_word(x / 4, 0, first + 1));
        lemma_sum_pow4_concat(h1, decode_word(x / 4, 1, first + 1));
        assert(sum_pow4(seq![first]) == pow4(first)) by {
            assert(seq![first].subrange(1, 1) =~= Seq::<nat>::empty());
        }
        assert(sum_pow4(Seq::<nat>::empty()) == 0);
        let p = pow4(first);
        assert(pow4(first + 1) == 4 * p);
        let r = x % 4;
        let q = x / 4;
        assert(x == 4 * q + r);
        let s0 = sum_pow4(h0);
        let s1 = sum_pow4(h1);
        if r == 0 {
            assert(h0 =~= Seq::<nat>::empty() && h1 =~= Seq::<nat>::empty());
        } else if r == 1 {
            assert(h0 =~= seq![first] && h1 =~= Seq::<nat>::empty());
        } else if r == 2 {
            assert(h0 =~= Seq::<nat>::empty() && h1 =~= seq![first]);
        } else {
            assert(h0 =~= seq![first] && h1 =~= seq![first]);
        }
        assert(s0 + 2 * s1 == r * p) by (nonlinear_arith)
            requires
                r < 4,
                r == 0 ==> s0 == 0 && s1 == 0,
                r == 1 ==> s0 == p && s1 == 0,
                r == 2 ==> s0 == 0 && s1 == p,
                r == 3 ==> s0 == p && s1 == p;
        assert(decode_word(x, 0, first) == h0 + decode_word(x / 4, 0, first + 1));
        assert(decode_word(x, 1, first) == h1 + decode_word(x / 4, 1, first + 1));
        assert((q * (4 * p)) + r * p == x * p) by (nonlinear_arith)
            requires x == 4 * q + r;
        let big0 = sum_pow4(decode_word(q, 0, first + 1));
        let big1 = sum_pow4(decode_word(q, 1, first + 1));
        assert(big0 + 2 * big1 == q * pow4(first + 1));
        assert(q * pow4(first + 1) == q * (4 * p));
        assert(sum_pow4(decode_word(x, 0, first)) == s0 + big0);
        assert(sum_pow4(decode_word(x, 1, first)) == s1 + big1);
    } else {
        let p = pow4(first);
        assert(x * p == 0) by (nonlinear_arith)
            requires x == 0;
    }
}

/// Decoding a word into the indices of the two haplotypes and encoding them
/// again gives the word back.
pub proof fn lemma_bitmask_round_trip(x: u32)
    ensures
        encode_word(decode_word(x as nat, 0, 0), decode_word(x as nat, 1, 0)) == x,
{
    lemma_decode_sum(x as nat, 0);
    assert(pow4(0) == 1);
    let p = pow4(0);
    assert(x as nat * p == x as nat) by (nonlinear_arith)
        requires p == 1;
}

/// The parsed bitmask of a sample at a site: `None` when nothing applies.
#[derive(Debug, Clone)]
pub struct BitMask {
    pub bitmask_elements: Option<Vec<u32>>,
}

/// The indices, as `usize`.
pub open spec fn as_nats(v: Seq<usize>) -> Seq<nat> {
    Seq::new(v.len(), |i: int| v[i] as nat)
}

impl BitMask {
    /// The effect indices for haplotype 1 and haplotype 2.
    pub fn get_indices(&self) -> (r: Option<(Vec<usize>, Vec<usize>)>)
        requires
            self.bitmask_elements matches Some(v) ==> 15 * v@.len() + 16 <= usize::MAX,
        ensures
            r is Some <==> self.bitmask_elements is Some,
            r matches Some((h1, h2)) ==> as_nats(h1@) == decode_words(self.bitmask_elements->0@, 0)
                && as_nats(h2@) == decode_words(self.bitmask_elements->0@, 1),
    {
        match &self.bitmask_elements {
            None => None,
            Some(v) => {
                if v.len() == 1 {
                    let (h1, h2) = BitMask::parse_single_field(v[0]);
                    proof {
                        assert(v@.drop_last() =~= Seq::<u32>::empty());
                        assert(decode_words(v@.drop_last(), 0) =~= Seq::<nat>::empty());
                        assert(decode_words(v@.drop_last(), 1) =~= Seq::<nat>::empty());
                        assert(decode_words(v@, 0) =~= decode_word(v@[0] as nat, 0, 0));
                        assert(decode_words(v@, 1) =~= decode_word(v@[0] as nat, 1, 0));
                    }
                    Some((h1, h2))
                } else {
                    Some(BitMask::parse_concat_values(v))
                }
            },
        }
    }

    /// The indices one word selects, from index 0.
    fn parse_single_field(bitmask: u32) -> (r: (Vec<usize>, Vec<usize>))
        ensures
            as_nats(r.0@) == decode_word(bitmask as nat, 0, 0),
            as_nats(r.1@) == decode_word(bitmask as nat, 1, 0),
    {
        let mut h1: Vec<usize> = Vec::new();
        let mut h2: Vec<usize> = Vec::new();
        decode_into(bitmask, 0, &mut h1, &mut h2);
        proof {
            assert(as_nats(h1@) =~= Seq::<nat>::empty() + decode_word(bitmask as nat, 0, 0));
            assert(as_nats(h2@) =~= Seq::<nat>::empty() + decode_word(bitmask as nat, 1, 0));
        }
        (h1, h2)
    }

    /// The indices several words select; word `w` starts at index `15 * w`.
    fn parse_concat_values(bitmask_vec: &Vec<u32>) -> (r: (Vec<usize>, Vec<usize>))
        requires
            15 * bitmask_vec@.len() + 16 <= usize::MAX,
        ensures
            as_nats(r.0@) == decode_words(bitmask_vec@, 0),
            as_nats(r.1@) == decode_words(bitmask_vec@, 1),
    {
        let mut h1: Vec<usize> = Vec::new();
        let mut h2: Vec<usize> = Vec::new();
        let mut w: usize = 0;
        while w < bitmask_vec.len()
            invariant
                w <= bitmask_vec@.len(),
                15 * bitmask_vec@.len() + 16 <= usize::MAX,
                as_nats(h1@) == decode_words(bitmask_vec@.take(w as int), 0),
                as_nats(h2@) == decode_words(bitmask_vec@.take(w as int), 1),
            decreases bitmask_vec.len() - w,
        {
            proof {
                assert(bitmask_vec@.take(w as int + 1).drop_last() =~= bitmask_vec@.take(w as int));
            }
            decode_into(bitmask_vec[w], 15 * w, &mut h1, &mut h2);
            w = w + 1;
        }
        assert(bitmask_vec@.take(w as int) =~= bitmask_vec@);
        (h1, h2)
    }
}

/// Appends the indices a word selects, from index `first`, to the two lists.
fn decode_into(word: u32, first: usize, h1: &mut Vec<usize>, h2: &mut Vec<usize>)
    requires
        first + 16 <= usize::MAX,
    ensures
        as_nats(final(h1)@) == as_nats(old(h1)@) + decode_word(word as nat, 0, first as nat),
        as_nats(final(h2)@) == as_nats(old(h2)@) + decode_word(word as nat, 1, first as nat),
{
    let mut cur: u32 = word;
    let mut idx: usize = first;
    let ghost a1 = as_nats(h1@);
    let ghost a2 = as_nats(h2@);
    proof {
        assert(as_nats(h1@) + decode_word(cur as nat, 0, idx as nat) =~= a1 + decode_word(word as nat, 0, first as nat));
        assert(as_nats(h2@) + decode_word(cur as nat, 1, idx as nat) =~= a2 + decode_word(word as nat, 1, first as nat));
        assert(pow4(0) == 1);
        assert((idx - first) as nat == 0nat);
        let pk = pow4((idx - first) as nat);
        assert(pk == 1);
        assert(cur as nat * pk == word as nat) by (nonlinear_arith)
            requires pk == 1, cur == word;
    }
    while cur != 0
        invariant
            first + 16 <= usize::MAX,
            idx >= first,
            cur as nat * pow4((idx - first) as nat) <= word,
            as_nats(h1@) + decode_word(cur as nat, 0, idx as nat) == a1 + decode_word(word as nat, 0, first as nat),
            as_nats(h2@) + decode_word(cur as nat, 1, idx as nat) == a2 + decode_word(word as nat, 1, first as nat),
        decreases cur,
    {
        let ghost c = cur as nat;
        let b0 = cur & 1;
        let b1 = (cur >> 1) & 1;
        assert(cur & 1 == cur % 2) by (bit_vector);
        assert((cur >> 1) & 1 == (cur / 2) % 2) by (bit_vector);
        assert((cur >> 2) == cur / 4) by (bit_vector);
        assert((c % 4) / 1 % 2 == c % 2);
        assert((c % 4) / 2 % 2 == (c / 2) % 2);
        proof {
            lemma_idx_small(cur, word, (idx - first) as nat);
        }
        let ghost old1 = as_nats(h1@);
        let ghost old2 = as_nats(h2@);
        if b0 == 1 {
            h1.push(idx);
        }
        if b1 == 1 {
            h2.push(idx);
        }
        proof {
            if b0 == 1 {
                assert(as_nats(h1@) =~= old1 + seq![idx as nat]);
            } else {
                assert(as_nats(h1@) =~= old1);
            }
            if b1 == 1 {
                assert(as_nats(h2@) =~= old2 + seq![idx as nat]);
            } else {
                assert(as_nats(h2@) =~= old2);
            }
            let here0: Seq<nat> = if (c % 4) / 1 % 2 == 1 { seq![idx as nat] } else { Seq::empty() };
            let here1: Seq<nat> = if (c % 4) / 2 % 2 == 1 { seq![idx as nat] } else { Seq::empty() };
            assert(decode_word(c, 0, idx as nat) == here0 + decode_word(c / 4, 0, idx as nat + 1));
            assert(decode_word(c, 1, idx as nat) == here1 + decode_word(c / 4, 1, idx as nat + 1));
            assert(as_nats(h1@) + decode_word(c / 4, 0, idx as nat + 1) =~= old1 + decode_word(c, 0, idx as nat));
            assert(as_nats(h2@) + decode_word(c / 4, 1, idx as nat + 1) =~= old2 + decode_word(c, 1, idx as nat));
            let k = (idx - first) as nat;
            assert(pow4(k + 1) == 4 * pow4(k));
            assert((c / 4) * pow4(k + 1) <= c * pow4(k)) by (nonlinear_arith)
                requires pow4(k + 1) == 4 * pow4(k);
        }
        cur = cur >> 2;
        idx = idx + 1;
    }
}

/// A non-zero word shifted right by `2k` bits leaves `k` below 16.
proof fn lemma_idx_small(cur: u32, word: u32, k: nat)
    requires
        cur != 0,
        cur as nat * pow4(k) <= word,
    ensures
        k < 16,
{
    if k >= 16 {
        lemma_pow4_grows(k);
        assert(cur as nat * pow4(k) >= pow4(k)) by (nonlinear_arith)
            requires cur != 0;
    }
}

proof fn lemma_pow4_grows(k: nat)
    requires
        k >= 16,
    ensures
        pow4(k) > 0xFFFF_FFFF,
    decreases k,
{
    if k == 16 {
        reveal_with_fuel(pow4, 17);
        assert(pow4(16) == 0x1_0000_0000);
    } else {
        lemma_pow4_grows((k - 1) as nat);
    }
}


/// The indices of `s` in the window of word `k` (from `15 * k` to `15 * k + 14`),
/// counted from the start of that window.
pub open spec fn window(s: Seq<nat>, k: nat) -> Seq<nat>
    decreases s.len(),
{
    if s.len() == 0 {
        Seq::empty()
    } else {
        window(s.drop_last(), k) + if 15 * k <= s.last() < 15 * k + 15 {
            seq![(s.last() - 15 * k) as nat]
        } else {
            Seq::empty()
        }
    }
}

proof fn lemma_window_concat(a: Seq<nat>, b: Seq<nat>, k: nat)
    ensures
        window(a + b, k) == window(a, k) + window(b, k),
    decreases b.len(),
{
    if b.len() == 0 {
        assert(a + b =~= a);
        assert(window(a, k) + window(b, k) =~= window(a, k));
    } else {
        assert((a + b).drop_last() =~= a + b.drop_last());
        lemma_window_concat(a, b.drop_last(), k);
        assert(window(a + b, k) =~= window(a, k) + window(b, k));
    }
}

proof fn lemma_window_outside(s: Seq<nat>, k: nat)
    requires
        forall|i: int| 0 <= i < s.len() ==> !(15 * k <= #[trigger] s[i] < 15 * k + 15),
    ensures
        window(s, k) == Seq::<nat>::empty(),
    decreases s.len(),
{
    if s.len() > 0 {
        assert forall|i: int| 0 <= i < s.drop_last().len() implies !(15 * k <= #[trigger] s.drop_last()[i] < 15 * k + 15) by {
            assert(s.drop_last()[i] == s[i]);
        }
        lemma_window_outside(s.drop_last(), k);
        assert(!(15 * k <= s[s.len() - 1] < 15 * k + 15));
        assert(window(s, k) =~= Seq::<nat>::empty());
    }
}

proof fn lemma_decode_range(x: nat, h: nat, f: nat, m: nat)
    requires
        x < pow4(m),
    ensures
        forall|i: int| 0 <= i < decode_word(x, h, f).len() ==> f <= #[trigger] decode_word(x, h, f)[i] < f + m,
    decreases x,
{
    if x > 0 {
        assert(m > 0) by {
            if m == 0 {
                assert(pow4(0) == 1);
            }
        }
        assert(x / 4 < pow4((m - 1) as nat)) by {
            assert(pow4(m) == 4 * pow4((m - 1) as nat));
        }
        lemma_decode_range(x / 4, h, f + 1, (m - 1) as nat);
        let here: Seq<nat> = if (x % 4) / (1 + h) % 2 == 1 { seq![f] } else { Seq::empty() };
        let d = decode_word(x, h, f);
        assert(d == here + decode_word(x / 4, h, f + 1));
        assert forall|i: int| 0 <= i < d.len() implies f <= #[trigger] d[i] < f + m by {
            if i < here.len() {
                assert(d[i] == f);
            } else {
                assert(d[i] == decode_word(x / 4, h, f + 1)[i - here.len()]);
            }
        }
    }
}

proof fn lemma_window_word(x: nat, h: nat, k: nat, j: nat, m: nat)
    requires
        x < pow4(m),
        j + m <= 15,
    ensures
        window(decode_word(x, h, 15 * k + j), k) == decode_word(x, h, j),
    decreases x,
{
    if x > 0 {
        assert(m > 0) by {
            if m == 0 {
                assert(pow4(0) == 1);
            }
        }
        assert(x / 4 < pow4((m - 1) as nat)) by {
            assert(pow4(m) == 4 * pow4((m - 1) as nat));
        }
        lemma_window_word(x / 4, h, k, j + 1, (m - 1) as nat);
        let here: Seq<nat> = if (x % 4) / (1 + h) % 2 == 1 { seq![15 * k + j] } else { Seq::empty() };
        let here0: Seq<nat> = if (x % 4) / (1 + h) % 2 == 1 { seq![j] } else { Seq::empty() };
        assert(decode_word(x, h, 15 * k + j) == here + decode_word(x / 4, h, 15 * k + j + 1));
        assert(decode_word(x, h, j) == here0 + decode_word(x / 4, h, j + 1));
        lemma_window_concat(here, decode_word(x / 4, h, 15 * k + j + 1), k);
        if here.len() > 0 {
            assert(here.drop_last() =~= Seq::<nat>::empty());
            assert(window(Seq::<nat>::empty(), k) =~= Seq::<nat>::empty());
            assert(here.last() == 15 * k + j);
            assert(j < 15);
            assert(((15 * k + j) - 15 * k) as nat == j);
            assert(window(here, k) =~= here0);
        } else {
            assert(window(here, k) =~= here0);
        }
        assert(15 * k + j + 1 == 15 * k + (j + 1));
    } else {
        assert(window(Seq::<nat>::empty(), k) =~= Seq::<nat>::empty());
    }
}

proof fn lemma_window_words(ws: Seq<u32>, h: nat, k: nat, t: int)
    requires
        0 <= t <= ws.len(),
        k < ws.len(),
        forall|j: int| 0 <= j < ws.len() ==> (#[trigger] ws[j]) < 0x4000_0000,
    ensures
        window(decode_words(ws.take(t), h), k) == if t > k { decode_word(ws[k as int] as nat, h, 0) } else { Seq::empty() },
    decreases t,
{
    assert(pow4(15) == 0x4000_0000) by {
        reveal_with_fuel(pow4, 16);
    }
    if t == 0 {
        assert(ws.take(0) =~= Seq::<u32>::empty());
        assert(window(Seq::<nat>::empty(), k) =~= Seq::<nat>::empty());
    } else {
        lemma_window_words(ws, h, k, t - 1);
        let pre = ws.take(t);
        assert(pre.drop_last() =~= ws.take(t - 1));
        assert(pre.last() == ws[t - 1]);
        let x = ws[t - 1] as nat;
        let d = decode_word(x, h, (15 * (t - 1)) as nat);
        assert(decode_words(pre, h) == decode_words(ws.take(t - 1), h) + d);
        lemma_window_concat(decode_words(ws.take(t - 1), h), d, k);
        if t - 1 == k {
            lemma_window_word(x, h, k, 0, 15);
            assert((15 * (t - 1)) as nat == 15 * k + 0);
            assert(Seq::<nat>::empty() + decode_word(x, h, 0) =~= decode_word(x, h, 0));
        } else {
            lemma_decode_range(x, h, (15 * (t - 1)) as nat, 15);
            assert forall|i: int| 0 <= i < d.len() implies !(15 * k <= #[trigger] d[i] < 15 * k + 15) by {
                if t - 1 < k {
                    assert(15 * (t - 1) + 15 <= 15 * k);
                } else {
                    assert(15 * k + 15 <= 15 * (t - 1));
                }
            }
            lemma_window_outside(d, k);
            let w0 = window(decode_words(ws.take(t - 1), h), k);
            assert(w0 + Seq::<nat>::empty() =~= w0);
        }
    }
}

/// Decoding bitmask words (whose bits 30 and 31 are unused) into the indices of
/// the two haplotypes, then encoding again the indices in each word's window of
/// 15 gives every word back.
pub proof fn lemma_bitmask_words_round_trip(ws: Seq<u32>, k: int)
    requires
        0 <= k < ws.len(),
        forall|j: int| 0 <= j < ws.len() ==> (#[trigger] ws[j]) < 0x4000_0000,
    ensures
        encode_word(window(decode_words(ws, 0), k as nat), window(decode_words(ws, 1), k as nat)) == ws[k],
{
    lemma_window_words(ws, 0, k as nat, ws.len() as int);
    lemma_window_words(ws, 1, k as nat, ws.len() as int);
    assert(ws.take(ws.len() as int) =~= ws);
    lemma_bitmask_round_trip(ws[k]);
}

} // verus!
