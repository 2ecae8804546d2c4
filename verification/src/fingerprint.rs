//! Fingerprints: fixed-width bit vectors produced by sign-quantizing dense
//! embedding vectors, compared by Hamming distance.

use vstd::prelude::*;

verus! {

/// True when bit `i` (counting from the least significant end) of `w` is set.
pub open spec fn word_bit(w: u64, i: u64) -> bool
    recommends
        i < 64,
{
    (w >> i) & 1 == 1
}

/// Number of set bits among the low `n` bits of `w`.
pub open spec fn count_low_bits(w: u64, n: int) -> nat
    decreases n,
{
    if n <= 0 {
        0
    } else {
        count_low_bits(w, n - 1) + if word_bit(w, (n - 1) as u64) {
            1nat
        } else {
            0nat
        }
    }
}

/// Number of set bits of a 64-bit word.
pub open spec fn count_ones64(w: u64) -> nat {
    count_low_bits(w, 64)
}

/// Bit `i` of a fingerprint laid out as a sequence of 64-bit words,
/// bit 0 being the least significant bit of the first word.
pub open spec fn fp_bit(words: Seq<u64>, i: int) -> bool
    recommends
        0 <= i < words.len() * 64,
{
    word_bit(words[i / 64], (i % 64) as u64)
}

/// Number of 64-bit words needed to hold `n` bits.
pub open spec fn words_for(n: int) -> int {
    n / 64 + if n % 64 == 0 {
        0int
    } else {
        1int
    }
}

/// Hamming distance restricted to the first `n` words of `a` and `b`.
pub open spec fn hamming_prefix(a: Seq<u64>, b: Seq<u64>, n: int) -> nat
    recommends
        n <= a.len(),
        n <= b.len(),
    decreases n,
{
    if n <= 0 {
        0
    } else {
        hamming_prefix(a, b, n - 1) + count_ones64(a[n - 1] ^ b[n - 1])
    }
}

/// Hamming distance between two equal-width fingerprints: the number of
/// bit positions where they differ.
pub open spec fn hamming_spec(a: Seq<u64>, b: Seq<u64>) -> nat
    recommends
        a.len() == b.len(),
{
    hamming_prefix(a, b, a.len() as int)
}

/// What it means for a word sequence to be the sign-quantization of a sign
/// sequence: just wide enough, bit `i` equal to `signs[i]`, and every bit
/// past the input zero.
pub open spec fn is_quantization_of(words: Seq<u64>, signs: Seq<bool>) -> bool {
    &&& words.len() == words_for(signs.len() as int)
    &&& forall|i: int| 0 <= i < signs.len() ==> fp_bit(words, i) == signs[i]
    &&& forall|i: int| signs.len() <= i < words.len() * 64 ==> !fp_bit(words, i)
}

/// A fixed-width bit pattern encoding the sign pattern of an embedding.
/// Viewed as its sequence of 64-bit words.
pub struct Fingerprint {
    words: Vec<u64>,
}

impl View for Fingerprint {
    type V = Seq<u64>;

    closed spec fn view(&self) -> Seq<u64> {
        self.words@
    }
}

proof fn lemma_bit_of_zero(k: u64)
    ensures
        !word_bit(0, k),
{
    assert((0u64 >> k) & 1 == 0) by (bit_vector);
}

proof fn lemma_bit_or_shift(w: u64, j: u64, k: u64)
    requires
        j < 64,
        k < 64,
    ensures
        word_bit(w | (1u64 << j), k) == (word_bit(w, k) || k == j),
{
    assert(k == j ==> ((w | (1u64 << j)) >> k) & 1 == 1) by (bit_vector)
        requires
            j < 64,
            k < 64,
    ;
    assert(k != j ==> ((w | (1u64 << j)) >> k) & 1 == (w >> k) & 1) by (bit_vector)
        requires
            j < 64,
            k < 64,
    ;
}

proof fn lemma_word_eq_from_bits(x: u64, y: u64)
    requires
        forall|k: u64| k < 64 ==> word_bit(x, k) == word_bit(y, k),
    ensures
        x == y,
{
    assert forall|k: u64| k < 64 implies #[trigger] ((x >> k) & 1) == ((y >> k) & 1) by {
        assert((x >> k) & 1 == 0 || (x >> k) & 1 == 1) by (bit_vector);
        assert((y >> k) & 1 == 0 || (y >> k) & 1 == 1) by (bit_vector);
        assert(word_bit(x, k) == word_bit(y, k));
    }
    lemma_word_eq_rec(x, y, 0);
    assert(x >> 0u64 == x && y >> 0u64 == y) by (bit_vector);
}

/// Words that agree on every bit agree when shifted right by any amount.
proof fn lemma_word_eq_rec(x: u64, y: u64, k: u64)
    requires
        k < 64,
        forall|j: u64| j < 64 ==> #[trigger] ((x >> j) & 1) == ((y >> j) & 1),
    ensures
        x >> k == y >> k,
    decreases 64 - k,
{
    assert((x >> k) & 1 == (y >> k) & 1);
    if k == 63 {
        assert(x >> 63u64 == y >> 63u64) by (bit_vector)
            requires
                (x >> 63u64) & 1 == (y >> 63u64) & 1,
        ;
    } else {
        lemma_word_eq_rec(x, y, (k + 1) as u64);
        assert(x >> k == y >> k) by (bit_vector)
            requires
                k < 63,
                x >> ((k + 1) as u64) == y >> ((k + 1) as u64),
                (x >> k) & 1 == (y >> k) & 1,
        ;
    }
}

/// Set bits among the low `n` bits of `w` never exceed `n`.
proof fn lemma_count_low_bits_le(w: u64, n: int)
    ensures
        count_low_bits(w, n) <= if n <= 0 {
            0int
        } else {
            n
        },
    decreases n,
{
    if n > 0 {
        lemma_count_low_bits_le(w, n - 1);
    }
}

/// The zero word has no set bits.
proof fn lemma_count_low_bits_zero(n: int)
    ensures
        count_low_bits(0, n) == 0,
    decreases n,
{
    if n > 0 {
        lemma_count_low_bits_zero(n - 1);
        lemma_bit_of_zero((n - 1) as u64);
    }
}

impl Fingerprint {
    /// Wraps an explicit word list as a fingerprint.
    pub fn from_words(words: Vec<u64>) -> (r: Fingerprint)
        ensures
            r@ == words@,
    {
        Fingerprint { words }
    }

    /// Width of the fingerprint in 64-bit words.
    pub fn width(&self) -> (w: usize)
        ensures
            w == self@.len(),
    {
        self.words.len()
    }

    /// The `i`-th word.
    pub fn word(&self, i: usize) -> (w: u64)
        requires
            i < self@.len(),
        ensures
            w == self@[i as int],
    {
        self.words[i]
    }

    /// An identical copy.
    pub fn duplicate(&self) -> (r: Fingerprint)
        ensures
            r@ == self@,
    {
        Fingerprint { words: self.words.clone() }
    }
}

/// Sign-quantization: packs a sequence of sign bits (`true` where the
/// embedding component is strictly positive) into a fingerprint. Bit `i`
/// of the result is `signs[i]`; bits past the input are zero.
pub fn quantize(signs: &Vec<bool>) -> (r: Fingerprint)
    requires
        signs@.len() <= usize::MAX - 63,
    ensures
        is_quantization_of(r@, signs@),
{
    let n = signs.len();
    let nwords = n / 64 + if n % 64 == 0 {
        0
    } else {
        1
    };
    assert(n <= nwords * 64);
    let mut words: Vec<u64> = Vec::new();
    let mut w: usize = 0;
    while w < nwords
        invariant
            w <= nwords,
            n == signs@.len(),
            n <= nwords * 64,
            nwords == words_for(n as int),
            nwords * 64 <= usize::MAX,
            words@.len() == w,
            forall|p: int|
                0 <= p < w * 64 ==> fp_bit(words@, p) == (p < n && signs@[p]),
        decreases nwords - w,
    {
        let mut word: u64 = 0;
        let mut j: usize = 0;
        proof {
            assert forall|k: u64| k < 64 implies !word_bit(0, k) by {
                lemma_bit_of_zero(k);
            }
        }
        while j < 64
            invariant
                j <= 64,
                w < nwords,
                n == signs@.len(),
                nwords * 64 <= usize::MAX,
                forall|k: u64|
                    k < j ==> word_bit(word, k) == ({
                        let p = w * 64 + k;
                        p < n && signs@[p as int]
                    }),
                forall|k: u64| j <= k < 64 ==> !word_bit(word, k),
            decreases 64 - j,
        {
            let idx = w * 64 + j;
            if idx < n && signs[idx] {
                let old_word = word;
                word = word | (1u64 << (j as u64));
                proof {
                    assert forall|k: u64| k < 64 implies word_bit(word, k) == (word_bit(
                        old_word,
                        k,
                    ) || k == j as u64) by {
                        lemma_bit_or_shift(old_word, j as u64, k);
                    }
                }
            }
            j += 1;
        }
        words.push(word);
        proof {
            assert forall|p: int| 0 <= p < (w + 1) * 64 implies fp_bit(words@, p) == (p < n
                && signs@[p]) by {
                if p < w * 64 {
                    assert(words@[p / 64] == words@.drop_last()[p / 64]);
                } else {
                    assert(p / 64 == w as int);
                    assert(p % 64 == p - w * 64);
                    assert(word_bit(word, (p - w * 64) as u64) == (p < n && signs@[p]));
                }
            }
        }
        w += 1;
    }
    proof {
        assert(words@.len() == nwords);
    }
    Fingerprint { words }
}

/// Sign-quantization into a single 64-bit word, for reduced (projected)
/// embeddings of at most 64 components.
pub fn quantize64(signs: &Vec<bool>) -> (h: u64)
    requires
        signs@.len() <= 64,
    ensures
        forall|k: u64| k < signs@.len() ==> word_bit(h, k) == signs@[k as int],
        forall|k: u64| signs@.len() <= k < 64 ==> !word_bit(h, k),
{
    let n = signs.len();
    let mut word: u64 = 0;
    let mut j: usize = 0;
    proof {
        assert forall|k: u64| k < 64 implies !word_bit(0, k) by {
            lemma_bit_of_zero(k);
        }
    }
    while j < n
        invariant
            j <= n,
            n == signs@.len(),
            n <= 64,
            forall|k: u64| k < j ==> word_bit(word, k) == signs@[k as int],
            forall|k: u64| j <= k < 64 ==> !word_bit(word, k),
        decreases n - j,
    {
        if signs[j] {
            let old_word = word;
            word = word | (1u64 << (j as u64));
            proof {
                assert forall|k: u64| k < 64 implies word_bit(word, k) == (word_bit(old_word, k)
                    || k == j as u64) by {
                    lemma_bit_or_shift(old_word, j as u64, k);
                }
            }
        }
        j += 1;
    }
    word
}

/// Number of set bits of `x`.
pub fn popcount(x: u64) -> (c: u32)
    ensures
        c == count_ones64(x),
{
    let mut c: u32 = 0;
    let mut j: u64 = 0;
    while j < 64
        invariant
            j <= 64,
            c == count_low_bits(x, j as int),
        decreases 64 - j,
    {
        proof {
            lemma_count_low_bits_le(x, j as int);
            assert((x >> j) & 1 == 0 || (x >> j) & 1 == 1) by (bit_vector);
        }
        c = c + ((x >> j) & 1) as u32;
        j += 1;
    }
    c
}

/// Hamming distance between two single-word fingerprints.
pub fn hamming64(a: u64, b: u64) -> (d: u32)
    ensures
        d == count_ones64(a ^ b),
{
    popcount(a ^ b)
}

/// Hamming distance between two fingerprints of the same width.
pub fn hamming(a: &Fingerprint, b: &Fingerprint) -> (d: u32)
    requires
        a@.len() == b@.len(),
        a@.len() * 64 <= u32::MAX,
    ensures
        d == hamming_spec(a@, b@),
{
    let n = a.width();
    let mut d: u32 = 0;
    let mut i: usize = 0;
    while i < n
        invariant
            i <= n,
            n == a@.len(),
            a@.len() == b@.len(),
            n * 64 <= u32::MAX,
            d == hamming_prefix(a@, b@, i as int),
            d <= i * 64,
        decreases n - i,
    {
        let w = popcount(a.word(i) ^ b.word(i));
        proof {
            lemma_count_low_bits_le(a@[i as int] ^ b@[i as int], 64);
        }
        d = d + w;
        i += 1;
    }
    d
}

/// Quantization is deterministic: any two fingerprints that satisfy the
/// quantization contract for the same sign sequence are equal.
pub proof fn lemma_quantize_deterministic(signs: Seq<bool>, a: Seq<u64>, b: Seq<u64>)
    requires
        is_quantization_of(a, signs),
        is_quantization_of(b, signs),
    ensures
        a == b,
{
    assert forall|w: int| 0 <= w < a.len() implies a[w] == b[w] by {
        assert forall|k: u64| k < 64 implies word_bit(a[w], k) == word_bit(b[w], k) by {
            let p = w * 64 + k;
            assert(0 <= p < a.len() * 64) by (nonlinear_arith)
                requires
                    0 <= w < a.len(),
                    k < 64,
                    p == w * 64 + k,
            ;
            assert(p / 64 == w && p % 64 == k) by (nonlinear_arith)
                requires
                    0 <= w,
                    k < 64,
                    p == w * 64 + k,
            ;
            assert(fp_bit(a, p) == word_bit(a[w], k));
            assert(fp_bit(b, p) == word_bit(b[w], k));
            assert(fp_bit(a, p) == fp_bit(b, p));
        }
        lemma_word_eq_from_bits(a[w], b[w]);
    }
    assert(a =~= b);
}

/// A single-word fingerprint is at distance zero from itself.
pub proof fn lemma_hamming64_self(x: u64)
    ensures
        count_ones64(x ^ x) == 0,
{
    assert(x ^ x == 0) by (bit_vector);
    lemma_count_low_bits_zero(64);
}

/// A single-word Hamming distance never exceeds the word width.
pub proof fn lemma_count_ones64_bound(x: u64)
    ensures
        count_ones64(x) <= 64,
{
    lemma_count_low_bits_le(x, 64);
}

/// Hamming distance is symmetric.
pub proof fn lemma_hamming_symmetric(a: Seq<u64>, b: Seq<u64>)
    requires
        a.len() == b.len(),
    ensures
        hamming_spec(a, b) == hamming_spec(b, a),
{
    lemma_hamming_prefix_symmetric(a, b, a.len() as int);
}

proof fn lemma_hamming_prefix_symmetric(a: Seq<u64>, b: Seq<u64>, n: int)
    requires
        n <= a.len(),
        n <= b.len(),
    ensures
        hamming_prefix(a, b, n) == hamming_prefix(b, a, n),
    decreases n,
{
    if n > 0 {
        lemma_hamming_prefix_symmetric(a, b, n - 1);
        let x = a[n - 1];
        let y = b[n - 1];
        assert(x ^ y == y ^ x) by (bit_vector);
    }
}

/// A fingerprint is at Hamming distance zero from itself.
pub proof fn lemma_hamming_self(a: Seq<u64>)
    ensures
        hamming_spec(a, a) == 0,
{
    lemma_hamming_prefix_self(a, a.len() as int);
}

proof fn lemma_hamming_prefix_self(a: Seq<u64>, n: int)
    requires
        n <= a.len(),
    ensures
        hamming_prefix(a, a, n) == 0,
    decreases n,
{
    if n > 0 {
        lemma_hamming_prefix_self(a, n - 1);
        let x = a[n - 1];
        assert(x ^ x == 0) by (bit_vector);
        lemma_count_low_bits_zero(64);
    }
}

/// Hamming distance never exceeds the total number of bits.
pub proof fn lemma_hamming_bound(a: Seq<u64>, b: Seq<u64>)
    requires
        a.len() == b.len(),
    ensures
        hamming_spec(a, b) <= a.len() * 64,
{
    lemma_hamming_prefix_bound(a, b, a.len() as int);
}

proof fn lemma_hamming_prefix_bound(a: Seq<u64>, b: Seq<u64>, n: int)
    requires
        n <= a.len(),
        n <= b.len(),
    ensures
        hamming_prefix(a, b, n) <= if n <= 0 {
            0int
        } else {
            n * 64
        },
    decreases n,
{
    if n > 0 {
        lemma_hamming_prefix_bound(a, b, n - 1);
        lemma_count_low_bits_le(a[n - 1] ^ b[n - 1], 64);
    }
}

} // verus!
