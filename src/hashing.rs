use vstd::prelude::*;
use vstd::arithmetic::power2::{pow2, lemma2_to64, lemma_pow2_adds, lemma_pow2_unfold, lemma_pow2_pos, lemma_pow2_strictly_increases};
use vstd::arithmetic::div_mod::{lemma_add_mod_noop, lemma_mod_bound, lemma_small_mod, lemma_mod_add_multiples_vanish};
use crate::configuration::{Tolerance, valid_tolerance};

verus! {

/// 2^64: the modulus of the double-hash arithmetic.
pub open spec fn word_modulus() -> nat {
    0x1_0000_0000_0000_0000
}

/// Significand of a single-precision float given by its bit pattern,
/// the hidden bit included for normal numbers.
pub open spec fn float_mantissa(bits: u32) -> nat {
    let exponent = bits >> 23u32;
    let fraction = bits & 0x7F_FFFFu32;
    if exponent == 0 {
        fraction as nat
    } else {
        fraction as nat + 0x80_0000
    }
}

/// Scale of a non-negative single-precision float given by its bit pattern:
/// its value is `float_mantissa(bits) / 2^float_scale(bits)`.
pub open spec fn float_scale(bits: u32) -> nat {
    let exponent = bits >> 23u32;
    if exponent == 0 {
        149
    } else {
        (150 - exponent) as nat
    }
}

/// `k` is the least number with `2^k * p >= 1`, for the tolerance `p` whose
/// float has bit pattern `bits`; that is, `k == ceil(-log2(p))`.
pub open spec fn is_hash_count_for(bits: u32, k: nat) -> bool {
    &&& pow2(k) * float_mantissa(bits) >= pow2(float_scale(bits))
    &&& k > 0 ==> pow2((k - 1) as nat) * float_mantissa(bits) < pow2(float_scale(bits))
}

proof fn lemma_tolerance_fields(bits: u32)
    requires
        valid_tolerance(bits),
    ensures
        (bits >> 23u32) < 127,
        (bits & 0x7F_FFFFu32) < 0x80_0000,
        (bits >> 23u32) == 0 ==> (bits & 0x7F_FFFFu32) == bits,
{
    assert((bits >> 23u32) < 127) by (bit_vector)
        requires
            bits < 0x3F80_0000u32,
    ;
    assert((bits & 0x7F_FFFFu32) < 0x80_0000) by (bit_vector);
    assert((bits >> 23u32) == 0 ==> (bits & 0x7F_FFFFu32) == bits) by (bit_vector);
}

/// Number of hash positions per entry for a tolerance: `ceil(-log2(p))`,
/// computed exactly from the float's significand and exponent.
pub fn calculate_number_of_hash_functions_based_on_tolerance(max_tolerance: &Tolerance) -> (r: usize)
    ensures
        is_hash_count_for(max_tolerance.bits(), r as nat),
        r >= 1,
{
    let bits = max_tolerance.get_maximum_tolerance();
    let exponent: u32 = bits >> 23u32;
    let fraction: u32 = bits & 0x7F_FFFFu32;
    proof {
        lemma_tolerance_fields(bits);
    }
    let mantissa: u64 = if exponent == 0 { fraction as u64 } else { fraction as u64 + 0x80_0000 };
    let scale: u64 = if exponent == 0 { 149 } else { (150 - exponent) as u64 };
    assert(mantissa == float_mantissa(bits) && scale == float_scale(bits));
    // The highest set bit of the mantissa: 2^top <= mantissa < 2^(top + 1).
    let mut top: u64 = 0;
    let mut power: u64 = 1;
    proof {
        lemma2_to64();
    }
    while power * 2 <= mantissa
        invariant
            power == pow2(top as nat),
            1 <= power <= mantissa,
            mantissa < 0x100_0000,
            top <= 23,
        decreases mantissa - power,
    {
        proof {
            lemma_pow2_unfold((top + 1) as nat);
            lemma2_to64();
        }
        power = power * 2;
        top = top + 1;
    }
    let k = scale - top;
    proof {
        let kk = k as nat;
        let t = top as nat;
        let mm = mantissa as int;
        lemma_pow2_unfold(t + 1);
        lemma_pow2_adds(kk, t);
        lemma_pow2_adds((kk - 1) as nat, t + 1);
        lemma_pow2_pos(kk);
        lemma_pow2_pos((kk - 1) as nat);
        let a = pow2(kk) as int;
        let b = pow2((kk - 1) as nat) as int;
        let lo = pow2(t) as int;
        let hi = pow2(t + 1) as int;
        assert(a * mm >= a * lo) by (nonlinear_arith)
            requires
                lo <= mm,
                a > 0,
        ;
        assert(b * mm < b * hi) by (nonlinear_arith)
            requires
                mm < hi,
                b > 0,
        ;
    }
    k as usize
}

/// At most one count meets `is_hash_count_for`: the contract pins `k` down.
pub proof fn lemma_hash_count_unique(bits: u32, k1: nat, k2: nat)
    requires
        valid_tolerance(bits),
        is_hash_count_for(bits, k1),
        is_hash_count_for(bits, k2),
    ensures
        k1 == k2,
{
    if k1 != k2 {
        let (lo, hi) = if k1 < k2 { (k1, k2) } else { (k2, k1) };
        let m = float_mantissa(bits) as int;
        if lo < (hi - 1) as nat {
            lemma_pow2_strictly_increases(lo, (hi - 1) as nat);
        }
        let a = pow2(lo) as int;
        let b = pow2((hi - 1) as nat) as int;
        assert(a * m <= b * m) by (nonlinear_arith)
            requires
                a <= b,
                m >= 0,
        ;
    }
}

/// The seed of the FNV hash.
pub struct Seed(u64);

impl Seed {
    pub const DEFAULT_SEED: u64 = 29;

    pub closed spec fn value(&self) -> u64 {
        self.0
    }

    pub fn get_seed(&self) -> (r: u64)
        ensures
            r == self.value(),
    {
        self.0
    }
}

impl Default for Seed {
    fn default() -> (r: Seed)
        ensures
            r.value() == Seed::DEFAULT_SEED,
    {
        Seed(Seed::DEFAULT_SEED)
    }
}

impl From<u64> for Seed {
    fn from(value: u64) -> (r: Seed)
        ensures
            r.value() == value,
    {
        Seed(value)
    }
}

impl vstd::std_specs::convert::FromSpecImpl<u64> for Seed {
    open spec fn obeys_from_spec() -> bool {
        true
    }

    closed spec fn from_spec(v: u64) -> Seed {
        Seed(v)
    }
}

/// A way to map an entry to a position below `total_bits`, for each index.
pub trait Hashing {
    /// The position that `hash` gives for these arguments.
    spec fn spec_hash(&self, idx: nat, total_bits: nat, entry: Seq<char>) -> nat;

    fn hash(&self, idx: usize, total_bits: usize, entry: &str) -> (r: usize)
        requires
            total_bits > 0,
        ensures
            r == self.spec_hash(idx as nat, total_bits as nat, entry@),
            r < total_bits;
}

/// What `fasthash::murmur::hash32` returns for the UTF-8 bytes of a string.
pub uninterp spec fn murmur32_of(entry: Seq<char>) -> u32;

/// The FNV-1a prime for 64 bits.
pub const FNV_PRIME: u64 = 0x100_0000_01b3;

/// FNV-1a over `bytes` from the state `state`: for each byte in turn, xor it
/// in, then multiply by the prime modulo 2^64.
pub open spec fn fnv1a(state: u64, bytes: Seq<u8>) -> u64
    decreases bytes.len(),
{
    if bytes.len() == 0 {
        state
    } else {
        let before = fnv1a(state, bytes.drop_last());
        (((before ^ (bytes.last() as u64)) as nat * FNV_PRIME as nat) % word_modulus()) as u64
    }
}

/// Relies on fasthash::murmur::hash32: the 32-bit MurmurHash of the entry's
/// UTF-8 bytes, a function of those bytes alone.
#[verifier::external_body]
fn murmur_hash32(entry: &str) -> (r: u32)
    ensures
        r == murmur32_of(entry@),
{
    fasthash::murmur::hash32(entry)
}

/// Relies on fnv::FnvHasher (with_key, then Hasher::write and Hasher::finish):
/// `write` runs FNV-1a (xor each byte in, then `wrapping_mul` by the prime)
/// from the state `key` over the entry's UTF-8 bytes, and `finish` returns
/// the state.
#[verifier::external_body]
fn fnv_hash64(key: u64, entry: &str) -> (r: u64)
    ensures
        r == fnv1a(key, vstd::utf8::encode_utf8(entry@)),
{
    let mut hasher = fnv::FnvHasher::with_key(key);
    std::hash::Hasher::write(&mut hasher, entry.as_bytes());
    std::hash::Hasher::finish(&hasher)
}

/// Double hashing: `(hm + idx * hf + idx * idx) mod 2^64 mod total_bits`.
pub open spec fn double_hash(hm: u64, hf: u64, idx: nat, total_bits: nat) -> nat {
    (((hm as int + idx * hf + idx * idx) % (word_modulus() as int)) % (total_bits as int)) as nat
}

/// The default position of `entry` for index `idx`: MurmurHash and seeded FNV-1a
/// combined by double hashing.
pub open spec fn default_position(seed: u64, idx: nat, total_bits: nat, entry: Seq<char>) -> nat {
    double_hash(murmur32_of(entry) as u64, fnv1a(seed, vstd::utf8::encode_utf8(entry)), idx, total_bits)
}

proof fn lemma_wrapping_add(x: u64, y: u64)
    ensures
        x.wrapping_add(y) == (x as int + y as int) % (word_modulus() as int),
{
    let m = word_modulus() as int;
    if x as int + y as int > u64::MAX {
        let d = x as int + y as int - m;
        lemma_small_mod(d as nat, m as nat);
        lemma_mod_add_multiples_vanish(d, m);
    } else {
        lemma_small_mod((x as int + y as int) as nat, m as nat);
    }
}

/// Double hashing over MurmurHash (32-bit) and FNV-1a (64-bit, seeded).
pub struct DefaultHashingStrategy(Seed);

impl DefaultHashingStrategy {
    pub closed spec fn seed(&self) -> u64 {
        self.0.value()
    }

    /// Combines two base hashes into the position for index `idx`.
    pub fn combine(hm: u32, hf: u64, idx: usize, total_bits: usize) -> (r: usize)
        requires
            total_bits > 0,
        ensures
            r == double_hash(hm as u64, hf, idx as nat, total_bits as nat),
            r < total_bits,
    {
        let i = idx as u64;
        let step = i.wrapping_mul(hf);
        let square = i.wrapping_mul(i);
        let sum = (hm as u64).wrapping_add(step).wrapping_add(square);
        proof {
            let m = word_modulus() as int;
            let a = hm as int;
            let b = i as int * hf as int;
            let c = i as int * i as int;
            lemma_wrapping_add(hm as u64, step);
            let s1 = (hm as u64).wrapping_add(step);
            lemma_wrapping_add(s1, square);
            lemma_add_mod_noop(a, b, m);
            lemma_small_mod(a as nat, m as nat);
            lemma_mod_bound(b, m);
            lemma_small_mod((b % m) as nat, m as nat);
            assert(s1 == (a + b) % m);
            lemma_add_mod_noop(a + b, c, m);
            lemma_mod_bound(a + b, m);
            lemma_small_mod(s1 as nat, m as nat);
            lemma_mod_bound(c, m);
            lemma_small_mod((c % m) as nat, m as nat);
            assert(sum == (a + b + c) % m);
        }
        (sum % (total_bits as u64)) as usize
    }
}

impl From<Seed> for DefaultHashingStrategy {
    fn from(value: Seed) -> (r: DefaultHashingStrategy)
        ensures
            r.seed() == value.value(),
    {
        DefaultHashingStrategy(value)
    }
}

impl vstd::std_specs::convert::FromSpecImpl<Seed> for DefaultHashingStrategy {
    open spec fn obeys_from_spec() -> bool {
        true
    }

    closed spec fn from_spec(v: Seed) -> DefaultHashingStrategy {
        DefaultHashingStrategy(v)
    }
}

impl Hashing for DefaultHashingStrategy {
    open spec fn spec_hash(&self, idx: nat, total_bits: nat, entry: Seq<char>) -> nat {
        default_position(self.seed(), idx, total_bits, entry)
    }

    fn hash(&self, idx: usize, total_bits: usize, entry: &str) -> (r: usize) {
        let hm = murmur_hash32(entry);
        let hf = fnv_hash64(self.0.get_seed(), entry);
        DefaultHashingStrategy::combine(hm, hf, idx, total_bits)
    }
}

/// Maps every entry, at every index, to one fixed position (reduced below the
/// bit length): a strategy that ignores the entry altogether.
pub struct ConstantHashingStrategy {
    pub position: usize,
}

impl Hashing for ConstantHashingStrategy {
    open spec fn spec_hash(&self, idx: nat, total_bits: nat, entry: Seq<char>) -> nat {
        self.position as nat % total_bits
    }

    fn hash(&self, idx: usize, total_bits: usize, entry: &str) -> (r: usize) {
        self.position % total_bits
    }
}

/// Two default strategies with the same seed give the same position for the
/// same index, bit length and entry: positions depend on nothing else.
pub proof fn lemma_default_positions_deterministic(
    a: &DefaultHashingStrategy,
    b: &DefaultHashingStrategy,
    idx: nat,
    total_bits: nat,
    entry: Seq<char>,
)
    requires
        a.seed() == b.seed(),
    ensures
        a.spec_hash(idx, total_bits, entry) == b.spec_hash(idx, total_bits, entry),
{
}

/// Derives the `k` positions of an entry from a strategy, over `total_bits` bits.
pub struct HashManager<H> {
    num_of_hash_funcs: usize,
    total_bits: usize,
    strategy: H,
}

impl<H: Hashing> HashManager<H> {
    pub closed spec fn hash_count(&self) -> nat {
        self.num_of_hash_funcs as nat
    }

    pub closed spec fn total_bits(&self) -> nat {
        self.total_bits as nat
    }

    pub closed spec fn strategy(&self) -> H {
        self.strategy
    }

    /// Position `idx` of `entry`: what the strategy gives, below `total_bits`.
    pub open spec fn position(&self, idx: nat, entry: Seq<char>) -> nat {
        self.strategy().spec_hash(idx, self.total_bits(), entry) % self.total_bits()
    }

    pub open spec fn wf(&self) -> bool {
        &&& 0 < self.total_bits() <= usize::MAX
        &&& self.hash_count() >= 1
    }

    pub proof fn lemma_position_bound(&self, idx: nat, entry: Seq<char>)
        requires
            self.wf(),
        ensures
            self.position(idx, entry) < self.total_bits(),
    {
        lemma_mod_bound(
            self.strategy().spec_hash(idx, self.total_bits(), entry) as int,
            self.total_bits() as int,
        );
    }

    /// A manager with `ceil(-log2(p))` positions per entry; zero bits is refused.
    pub fn try_from(max_tolerance: &Tolerance, total_bits: usize, strategy: H) -> (r: Result<
        HashManager<H>,
        &'static str,
    >)
        ensures
            r is Err <==> total_bits == 0,
            r matches Ok(m) ==> {
                &&& m.wf()
                &&& m.total_bits() == total_bits
                &&& m.strategy() == strategy
                &&& is_hash_count_for(max_tolerance.bits(), m.hash_count())
            },
    {
        if total_bits == 0 {
            return Err("Total bits cannot be zero");
        }
        let num_of_hash_funcs = calculate_number_of_hash_functions_based_on_tolerance(max_tolerance);
        Ok(HashManager { num_of_hash_funcs, total_bits, strategy })
    }

    pub fn get_hash_count(&self) -> (r: usize)
        ensures
            r == self.hash_count(),
    {
        self.num_of_hash_funcs
    }

    /// The positions of `entry`, one for each index below the hash count.
    pub fn compute(&self, entry: &str) -> (r: Vec<usize>)
        requires
            self.wf(),
        ensures
            r@.len() == self.hash_count(),
            forall|i: int| 0 <= i < r@.len() ==> #[trigger] r@[i] == self.position(i as nat, entry@),
            forall|i: int| 0 <= i < r@.len() ==> #[trigger] r@[i] < self.total_bits(),
    {
        let mut positions: Vec<usize> = Vec::new();
        let mut idx: usize = 0;
        while idx < self.num_of_hash_funcs
            invariant
                self.wf(),
                idx <= self.num_of_hash_funcs,
                positions@.len() == idx,
                forall|i: int| 0 <= i < idx ==> #[trigger] positions@[i] == self.position(i as nat, entry@),
                forall|i: int| 0 <= i < idx ==> #[trigger] positions@[i] < self.total_bits(),
            decreases self.num_of_hash_funcs - idx,
        {
            let p = self.strategy.hash(idx, self.total_bits, entry);
            proof {
                lemma_small_mod(p as nat, self.total_bits as nat);
            }
            positions.push(p);
            idx = idx + 1;
        }
        positions
    }
}

} // verus!
