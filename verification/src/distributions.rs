//! Empirical cumulative distributions and their decile summaries.
//!
//! A sample of statistic values (held as 64-bit IEEE-754 bit patterns,
//! see `fbits`) is cleaned of NaN patterns and sorted into an empirical
//! CDF.  The CDF answers point lookups and reduces to an 11-value decile
//! ladder (0th, 10th, ..., 100th percentile), which serializes into a
//! fixed 88-byte little-endian blob for storage.

use vstd::prelude::*;

use crate::error::BufcliError;
use crate::fbits::{is_nan_bits, le_bits, lt_bits, nan_bits, lt_of, order_key};

verus! {

/// A sequence of bit patterns sorted by the key order.
pub open spec fn sorted_bits(s: Seq<u64>) -> bool {
    forall|i: int, j: int| 0 <= i < j < s.len() ==> le_bits(s[i], s[j])
}

/// No element of the sequence is a NaN pattern.
pub open spec fn no_nan_bits(s: Seq<u64>) -> bool {
    forall|i: int| 0 <= i < s.len() ==> !is_nan_bits(#[trigger] s[i])
}

/// The sample with its NaN patterns discarded, order kept.
pub open spec fn non_nan(s: Seq<u64>) -> Seq<u64> {
    s.filter(|b: u64| !is_nan_bits(b))
}

/// How many leading elements of a key-sorted sequence sort strictly
/// before `x`: the insertion point of a binary search.
pub open spec fn insertion_point(s: Seq<u64>, x: u64) -> int
    decreases s.len(),
{
    if s.len() == 0 {
        0
    } else if lt_bits(s[0], x) {
        1 + insertion_point(s.drop_first(), x)
    } else {
        0
    }
}

/// The percentile reported for a value with `i` sorted elements before it
/// in a sample of `n`: `i` scaled by `100 / (n - 1)`, capped at 100.
pub open spec fn percentile_of_spec(n: int, i: int) -> int {
    let scaled = (i * 100) / (n - 1);
    if scaled > 100 {
        100
    } else {
        scaled
    }
}

/// The sorted rank holding percentile `p` in a sample of `n` values:
/// `(n - 1) * p / 100`, rounded to the nearest rank (half up).
pub open spec fn rank_index_spec(p: int, n: int) -> int {
    (p * (n - 1) + 50) / 100
}

/// The rank holding a percentile always lies inside the sample.
pub proof fn lemma_rank_index_in_bounds(p: int, n: int)
    requires
        0 <= p <= 100,
        n >= 1,
    ensures
        0 <= rank_index_spec(p, n) < n,
{
    assert(0 <= p * (n - 1)) by (nonlinear_arith)
        requires p >= 0 && n >= 1;
    assert(p * (n - 1) <= 100 * (n - 1)) by (nonlinear_arith)
        requires p <= 100 && n >= 1;
    assert((100 * (n - 1) + 50) / 100 == n - 1) by (nonlinear_arith)
        requires n >= 1;
    vstd::arithmetic::div_mod::lemma_div_is_ordered(p * (n - 1) + 50, 100 * (n - 1) + 50, 100);
    assert(0 <= (p * (n - 1) + 50) / 100) by (nonlinear_arith)
        requires p >= 0 && n >= 1;
}

/// Percentile, which must be between 0 and 100 inclusive.
#[derive(Clone, Copy, Debug, PartialEq, Eq, Hash, Structural)]
pub struct Percentile(u32);

impl Percentile {
    /// The percentage this value stands for.
    pub closed spec fn spec_value(&self) -> u32 {
        self.0
    }

    /// Make a percentile from a percentage in the 0 to 100 range.
    pub fn new(val: u32) -> (r: Self)
        requires
            val <= 100,
        ensures
            r.spec_value() == val,
    {
        Percentile(val)
    }

    /// The percentage this value stands for.
    pub fn value(&self) -> (r: u32)
        ensures
            r == self.spec_value(),
    {
        self.0
    }
}

/// Represents the empirical CDF of a set of values.
#[derive(Clone, Debug)]
pub struct CumulativeDistribution {
    sorted_values: Vec<u64>,
}

/// Pre-calculated deciles: the 0th, 10th, ..., 100th percentiles of a
/// sample, in that order.
#[derive(Clone, Copy, Debug)]
pub struct Deciles {
    deciles: [u64; 11],
}

/// Swapping two positions of a sequence keeps its multiset of elements.
proof fn lemma_swap_preserves_multiset(s: Seq<u64>, i: int, j: int)
    requires
        0 <= i < s.len(),
        0 <= j < s.len(),
        i != j,
    ensures
        s.update(i, s[j]).update(j, s[i]).to_multiset() == s.to_multiset(),
{
    broadcast use vstd::seq_lib::group_seq_properties;
    broadcast use vstd::seq_lib::to_multiset_update;
    broadcast use vstd::multiset::group_multiset_properties;
    broadcast use vstd::multiset::group_multiset_axioms;

    let s1 = s.update(i, s[j]);
    assert(s1.to_multiset() == s.to_multiset().insert(s[j]).remove(s[i]));
    assert(s1[j] == s[j]);
    assert(s1.update(j, s[i]).to_multiset() == s1.to_multiset().insert(s[i]).remove(s[j]));
    assert(s.to_multiset().contains(s[i])) by {
        broadcast use vstd::seq_lib::to_multiset_contains;
        assert(s.contains(s[i]));
    }
    assert(s1.update(j, s[i]).to_multiset() =~= s.to_multiset());
}

/// Sort a vector of non-NaN bit patterns into key order, keeping exactly
/// the same elements.
fn sort_bits(v: &mut Vec<u64>)
    ensures
        sorted_bits(final(v)@),
        final(v)@.to_multiset() == old(v)@.to_multiset(),
        final(v)@.len() == old(v)@.len(),
{
    broadcast use vstd::seq_lib::to_multiset_len;

    let ghost orig = v@;
    let mut i: usize = 1;
    while i < v.len()
        invariant
            1 <= i,
            v@.len() == orig.len(),
            v@.to_multiset() == orig.to_multiset(),
            forall|a: int, b: int| 0 <= a < b < i && b < v@.len() ==> le_bits(v@[a], v@[b]),
        decreases v@.len() - i,
    {
        let mut j: usize = i;
        while j > 0 && lt_of(v[j], v[j - 1])
            invariant
                0 <= j <= i < v@.len(),
                v@.len() == orig.len(),
                v@.to_multiset() == orig.to_multiset(),
                forall|a: int, b: int|
                    0 <= a < b <= i && b != j ==> le_bits(v@[a], v@[b]),
            decreases j,
        {
            let ghost before = v@;
            let x = v[j];
            let y = v[j - 1];
            v.set(j, y);
            v.set(j - 1, x);
            proof {
                assert(v@ == before.update(j as int, before[j as int - 1]).update(
                    j as int - 1,
                    before[j as int],
                ));
                assert(before.update(j as int, before[j as int - 1]).update(
                    j as int - 1,
                    before[j as int],
                ) == before.update(j as int - 1, before[j as int]).update(
                    j as int,
                    before[j as int - 1],
                )) by {
                    assert(before.update(j as int, before[j as int - 1]).update(
                        j as int - 1,
                        before[j as int],
                    ) =~= before.update(j as int - 1, before[j as int]).update(
                        j as int,
                        before[j as int - 1],
                    ));
                }
                lemma_swap_preserves_multiset(before, j as int - 1, j as int);
            }
            j = j - 1;
        }
        proof {
            assert forall|a: int, b: int| 0 <= a < b <= i implies le_bits(v@[a], v@[b]) by {
                if b == j as int && j > 0 {
                    assert(le_bits(v@[j as int - 1], v@[j as int]));
                    if a < j as int - 1 {
                        assert(le_bits(v@[a], v@[j as int - 1]));
                    }
                }
            }
        }
        i = i + 1;
    }
}

/// In a key-sorted sequence, a boundary position below which everything
/// sorts before `x` and at which nothing does is the insertion point.
proof fn lemma_insertion_point_boundary(s: Seq<u64>, x: u64, i: int)
    requires
        sorted_bits(s),
        0 <= i <= s.len(),
        forall|k: int| 0 <= k < i ==> lt_bits(#[trigger] s[k], x),
        i < s.len() ==> !lt_bits(s[i], x),
    ensures
        insertion_point(s, x) == i,
    decreases s.len(),
{
    if s.len() == 0 {
    } else if i == 0 {
    } else {
        assert(lt_bits(s[0], x));
        let s2 = s.drop_first();
        assert(forall|k: int| 0 <= k < i - 1 ==> lt_bits(#[trigger] s2[k], x));
        assert(i - 1 < s2.len() ==> !lt_bits(s2[i - 1], x));
        lemma_insertion_point_boundary(s2, x, i - 1);
    }
}

impl CumulativeDistribution {
    /// The sorted sample this CDF was built from.
    pub closed spec fn values(&self) -> Seq<u64> {
        self.sorted_values@
    }

    /// Well-formed: sorted by the key order and free of NaN patterns.
    pub open spec fn wf(&self) -> bool {
        sorted_bits(self.values()) && no_nan_bits(self.values())
    }

    /// Build the empirical CDF of a sample: NaN patterns are discarded
    /// and the rest is sorted ascending.
    pub fn new(data: Vec<u64>) -> (r: Self)
        ensures
            r.wf(),
            r.values().to_multiset() == non_nan(data@).to_multiset(),
            r.values().len() == non_nan(data@).len(),
    {
        broadcast use vstd::seq_lib::to_multiset_len;

        let mut kept: Vec<u64> = Vec::new();
        let mut idx: usize = 0;
        while idx < data.len()
            invariant
                0 <= idx <= data@.len(),
                kept@ == data@.take(idx as int).filter(|b: u64| !is_nan_bits(b)),
            decreases data@.len() - idx,
        {
            let b = data[idx];
            proof {
                reveal(Seq::filter);
                assert(data@.take(idx + 1).drop_last() =~= data@.take(idx as int));
                assert(data@.take(idx + 1).last() == data@[idx as int]);
            }
            if !nan_bits(b) {
                kept.push(b);
            }
            idx = idx + 1;
        }
        proof {
            assert(data@.take(data@.len() as int) =~= data@);
        }
        let ghost fs = non_nan(data@);
        sort_bits(&mut kept);
        proof {
            broadcast use vstd::seq_lib::to_multiset_contains;
            broadcast use vstd::seq_lib::group_filter_ensures;
            assert forall|k: int| 0 <= k < kept@.len() implies !is_nan_bits(
                #[trigger] kept@[k],
            ) by {
                assert(kept@.contains(kept@[k]));
                assert(fs.to_multiset().count(kept@[k]) > 0);
                assert(fs.contains(kept@[k]));
                let i = choose|i: int| 0 <= i < fs.len() && fs[i] == kept@[k];
                assert(!is_nan_bits(fs[i]));
            }
        }
        CumulativeDistribution { sorted_values: kept }
    }

    /// Wrap a sample that is already sorted and free of NaN patterns.
    pub fn presorted_new(data: Vec<u64>) -> (r: Self)
        requires
            sorted_bits(data@),
            no_nan_bits(data@),
        ensures
            r.wf(),
            r.values() == data@,
    {
        CumulativeDistribution { sorted_values: data }
    }

    /// The number of values in the sample.
    pub fn len(&self) -> (r: usize)
        ensures
            r == self.values().len(),
    {
        self.sorted_values.len()
    }

    /// The percentile of a value against this CDF: the binary-search
    /// insertion point scaled to the 0 to 100 range.
    pub fn percentile_of_value(&self, value: u64) -> (r: Percentile)
        requires
            self.wf(),
            !is_nan_bits(value),
            self.values().len() >= 2,
        ensures
            r.spec_value() == percentile_of_spec(
                self.values().len() as int,
                insertion_point(self.values(), value),
            ),
            r.spec_value() <= 100,
    {
        let n = self.sorted_values.len();
        let mut lo: usize = 0;
        let mut hi: usize = n;
        while lo < hi
            invariant
                0 <= lo <= hi <= self.values().len(),
                sorted_bits(self.values()),
                forall|k: int| 0 <= k < lo ==> lt_bits(#[trigger] self.values()[k], value),
                forall|k: int|
                    hi <= k < self.values().len() ==> !lt_bits(#[trigger] self.values()[k], value),
            decreases hi - lo,
        {
            let mid = lo + (hi - lo) / 2;
            if lt_of(self.sorted_values[mid], value) {
                proof {
                    assert forall|k: int| 0 <= k < mid + 1 implies lt_bits(
                        #[trigger] self.values()[k],
                        value,
                    ) by {
                        if k < mid {
                            assert(le_bits(self.values()[k], self.values()[mid as int]));
                        }
                    }
                }
                lo = mid + 1;
            } else {
                proof {
                    assert forall|k: int| mid <= k < self.values().len() implies !lt_bits(
                        #[trigger] self.values()[k],
                        value,
                    ) by {
                        if k > mid {
                            assert(le_bits(self.values()[mid as int], self.values()[k]));
                        }
                    }
                }
                hi = mid;
            }
        }
        proof {
            lemma_insertion_point_boundary(self.values(), value, lo as int);
            let i = lo as int;
            let nn = self.values().len() as int;
            assert(i * 100 <= nn * 100) by (nonlinear_arith)
                requires i <= nn && 0 <= i;
        }
        let scaled: u128 = (lo as u128) * 100 / ((n - 1) as u128);
        let pct: u32 = if scaled > 100 {
            100
        } else {
            scaled as u32
        };
        proof {
            let i = lo as int;
            let nn = self.values().len() as int;
            assert(i * 100 <= nn * 100) by (nonlinear_arith)
                requires i <= nn && 0 <= i;
            assert(scaled == (i * 100) / (nn - 1));
        }
        Percentile(pct)
    }

    /// The sample value holding a percentile: nearest rank, half up.
    pub fn value_at_percentile(&self, percentile: Percentile) -> (r: u64)
        requires
            self.values().len() >= 1,
            percentile.spec_value() <= 100,
        ensures
            r == self.values()[rank_index_spec(
                percentile.spec_value() as int,
                self.values().len() as int,
            )],
    {
        let n = self.sorted_values.len();
        let p = percentile.0;
        proof {
            let pp = p as int;
            let nn = n as int;
            assert(pp <= 100);
            assert(pp * (nn - 1) <= 100 * (nn - 1)) by (nonlinear_arith)
                requires pp <= 100 && nn >= 1;
            assert(0 <= pp * (nn - 1)) by (nonlinear_arith)
                requires pp >= 0 && nn >= 1;
        }
        let idx128: u128 = ((p as u128) * ((n - 1) as u128) + 50) / 100;
        proof {
            let pp = p as int;
            let nn = n as int;
            assert((100 * (nn - 1) + 50) / 100 == nn - 1) by (nonlinear_arith)
                requires nn >= 1;
            vstd::arithmetic::div_mod::lemma_div_is_ordered(
                pp * (nn - 1) + 50,
                100 * (nn - 1) + 50,
                100,
            );
            assert(0 <= (pp * (nn - 1) + 50) / 100) by (nonlinear_arith)
                requires pp >= 0 && nn >= 1;
        }
        let idx: usize = idx128 as usize;
        self.sorted_values[idx]
    }

    /// Reduce the CDF to its decile ladder.  The ladder is non-decreasing
    /// and bracketed by the sample minimum and maximum.
    pub fn deciles(&self) -> (r: Deciles)
        requires
            self.wf(),
            self.values().len() >= 1,
        ensures
            r.values().len() == 11,
            forall|k: int|
                0 <= k < 11 ==> r.values()[k] == self.values()[rank_index_spec(
                    10 * k,
                    self.values().len() as int,
                )],
            forall|k1: int, k2: int|
                0 <= k1 <= k2 < 11 ==> le_bits(#[trigger] r.values()[k1], #[trigger] r.values()[k2]),
            r.values()[0] == self.values()[0],
            r.values()[10] == self.values()[self.values().len() - 1],
    {
        let deciles: [u64; 11] = [
            self.value_at_percentile(Percentile(0)),
            self.value_at_percentile(Percentile(10)),
            self.value_at_percentile(Percentile(20)),
            self.value_at_percentile(Percentile(30)),
            self.value_at_percentile(Percentile(40)),
            self.value_at_percentile(Percentile(50)),
            self.value_at_percentile(Percentile(60)),
            self.value_at_percentile(Percentile(70)),
            self.value_at_percentile(Percentile(80)),
            self.value_at_percentile(Percentile(90)),
            self.value_at_percentile(Percentile(100)),
        ];
        let r = Deciles { deciles };
        proof {
            let nn = self.values().len() as int;
            assert forall|p1: int, p2: int|
                0 <= p1 <= p2 <= 100 implies rank_index_spec(p1, nn) <= rank_index_spec(
                p2,
                nn,
            ) by {
                assert(p1 * (nn - 1) <= p2 * (nn - 1)) by (nonlinear_arith)
                    requires 0 <= p1 <= p2 && nn >= 1;
                vstd::arithmetic::div_mod::lemma_div_is_ordered(
                    p1 * (nn - 1) + 50,
                    p2 * (nn - 1) + 50,
                    100,
                );
            }
            assert forall|p: int| 0 <= p <= 100 implies 0 <= #[trigger] rank_index_spec(p, nn)
                < nn by {
                assert(0 <= p * (nn - 1)) by (nonlinear_arith)
                    requires 0 <= p && nn >= 1;
                assert(p * (nn - 1) <= 100 * (nn - 1)) by (nonlinear_arith)
                    requires p <= 100 && nn >= 1;
                assert((100 * (nn - 1) + 50) / 100 == nn - 1) by (nonlinear_arith)
                    requires nn >= 1;
                vstd::arithmetic::div_mod::lemma_div_is_ordered(
                    p * (nn - 1) + 50,
                    100 * (nn - 1) + 50,
                    100,
                );
                assert(0 <= (p * (nn - 1) + 50) / 100) by (nonlinear_arith)
                    requires 0 <= p && nn >= 1;
            }
            assert(rank_index_spec(0, nn) == 0) by (nonlinear_arith)
                requires nn >= 1;
            assert(rank_index_spec(100, nn) == nn - 1) by (nonlinear_arith)
                requires nn >= 1;
        }
        r
    }
}

/// Byte `j` (low to high) of the little-endian encoding of `x`.
pub open spec fn u64_le_byte(x: u64, j: u64) -> u8 {
    ((x >> (8 * j)) & 0xff) as u8
}

/// The 88-byte little-endian blob of a decile ladder.
pub open spec fn deciles_to_bytes(d: Seq<u64>) -> Seq<u8> {
    Seq::new(88, |i: int| u64_le_byte(d[i / 8], (i % 8) as u64))
}

/// The value encoded by 8 little-endian bytes.
pub open spec fn le_u64_of(s: Seq<u8>) -> u64
    recommends
        s.len() == 8,
{
    (s[0] as u64) | ((s[1] as u64) << 8) | ((s[2] as u64) << 16) | ((s[3] as u64) << 24) | ((
    s[4] as u64) << 32) | ((s[5] as u64) << 40) | ((s[6] as u64) << 48) | ((s[7] as u64) << 56)
}

/// The decile ladder encoded in the first 88 bytes of a blob.
pub open spec fn bytes_to_deciles(s: Seq<u8>) -> Seq<u64> {
    Seq::new(11, |k: int| le_u64_of(s.subrange(8 * k, 8 * k + 8)))
}

/// Reassembling the 8 little-endian bytes of a value gives it back.
proof fn lemma_le_u64_round_trip(x: u64)
    ensures
        le_u64_of(Seq::new(8, |j: int| u64_le_byte(x, j as u64))) == x,
{
    let s = Seq::new(8, |j: int| u64_le_byte(x, j as u64));
    assert(((((x >> 0) & 0xff) as u8) as u64) | (((((x >> 8) & 0xff) as u8) as u64) << 8) | (((((
    x >> 16) & 0xff) as u8) as u64) << 16) | (((((x >> 24) & 0xff) as u8) as u64) << 24) | (((((
    x >> 32) & 0xff) as u8) as u64) << 32) | (((((x >> 40) & 0xff) as u8) as u64) << 40) | (((((
    x >> 48) & 0xff) as u8) as u64) << 48) | (((((x >> 56) & 0xff) as u8) as u64) << 56) == x)
        by (bit_vector);
    assert(s[0] == ((x >> 0) & 0xff) as u8);
    assert(s[1] == ((x >> 8) & 0xff) as u8);
    assert(s[2] == ((x >> 16) & 0xff) as u8);
    assert(s[3] == ((x >> 24) & 0xff) as u8);
    assert(s[4] == ((x >> 32) & 0xff) as u8);
    assert(s[5] == ((x >> 40) & 0xff) as u8);
    assert(s[6] == ((x >> 48) & 0xff) as u8);
    assert(s[7] == ((x >> 56) & 0xff) as u8);
}

/// Decile round-trip: the blob of a decile ladder decodes to exactly the
/// same 11 values.
pub proof fn lemma_deciles_round_trip(d: Seq<u64>)
    requires
        d.len() == 11,
    ensures
        bytes_to_deciles(deciles_to_bytes(d)) == d,
{
    let bytes = deciles_to_bytes(d);
    assert forall|k: int| 0 <= k < 11 implies bytes_to_deciles(bytes)[k] == d[k] by {
        assert(bytes.subrange(8 * k, 8 * k + 8) =~= Seq::new(
            8,
            |j: int| u64_le_byte(d[k], j as u64),
        )) by {
            assert forall|j: int| 0 <= j < 8 implies #[trigger] bytes.subrange(8 * k, 8 * k + 8)[j]
                == u64_le_byte(d[k], j as u64) by {
                assert(bytes[8 * k + j] == u64_le_byte(d[(8 * k + j) / 8], ((8 * k + j) % 8) as u64));
                assert((8 * k + j) / 8 == k);
                assert((8 * k + j) % 8 == j);
            }
        }
        lemma_le_u64_round_trip(d[k]);
    }
    assert(bytes_to_deciles(bytes) =~= d);
}

/// Read the 8 little-endian bytes at `off` as one value.
fn le_u64_at(bytes: &[u8], off: usize) -> (r: u64)
    requires
        off + 8 <= bytes@.len(),
    ensures
        r == le_u64_of(bytes@.subrange(off as int, off as int + 8)),
{
    let r = (bytes[off] as u64) | ((bytes[off + 1] as u64) << 8) | ((bytes[off + 2] as u64) << 16)
        | ((bytes[off + 3] as u64) << 24) | ((bytes[off + 4] as u64) << 32) | ((bytes[off
        + 5] as u64) << 40) | ((bytes[off + 6] as u64) << 48) | ((bytes[off + 7] as u64) << 56);
    proof {
        let s = bytes@.subrange(off as int, off as int + 8);
        assert(s[0] == bytes@[off as int]);
        assert(s[1] == bytes@[off as int + 1]);
        assert(s[2] == bytes@[off as int + 2]);
        assert(s[3] == bytes@[off as int + 3]);
        assert(s[4] == bytes@[off as int + 4]);
        assert(s[5] == bytes@[off as int + 5]);
        assert(s[6] == bytes@[off as int + 6]);
        assert(s[7] == bytes@[off as int + 7]);
    }
    r
}

impl Deciles {
    /// The 11 values of the ladder, lowest percentile first.
    pub closed spec fn values(&self) -> Seq<u64> {
        self.deciles@
    }

    /// Make a ladder directly from its 11 values.
    pub fn from_values(vals: [u64; 11]) -> (r: Self)
        ensures
            r.values() == vals@,
            r.values().len() == 11,
    {
        Deciles { deciles: vals }
    }

    /// Serialize the ladder into its fixed 88-byte little-endian blob.
    pub fn as_bytes(&self) -> (r: Vec<u8>)
        ensures
            r@ == deciles_to_bytes(self.values()),
            r@.len() == 88,
    {
        let mut out: Vec<u8> = Vec::new();
        let mut k: usize = 0;
        while k < 11
            invariant
                0 <= k <= 11,
                out@.len() == 8 * k,
                forall|i: int|
                    0 <= i < 8 * k ==> out@[i] == u64_le_byte(
                        self.values()[i / 8],
                        (i % 8) as u64,
                    ),
            decreases 11 - k,
        {
            let x = self.deciles[k];
            out.push(((x >> 0) & 0xff) as u8);
            out.push(((x >> 8) & 0xff) as u8);
            out.push(((x >> 16) & 0xff) as u8);
            out.push(((x >> 24) & 0xff) as u8);
            out.push(((x >> 32) & 0xff) as u8);
            out.push(((x >> 40) & 0xff) as u8);
            out.push(((x >> 48) & 0xff) as u8);
            out.push(((x >> 56) & 0xff) as u8);
            proof {
                assert forall|i: int| 0 <= i < 8 * (k + 1) implies out@[i] == u64_le_byte(
                    self.values()[i / 8],
                    (i % 8) as u64,
                ) by {
                    if i >= 8 * k {
                        assert(i / 8 == k);
                        assert(i % 8 == i - 8 * k);
                    }
                }
            }
            k = k + 1;
        }
        proof {
            assert(out@ =~= deciles_to_bytes(self.values()));
        }
        out
    }

    /// Deserialize a ladder from a stored blob.  Succeeds exactly when the
    /// blob holds at least the 88 bytes of the fixed layout; bytes past
    /// the layout are ignored, as a reader would leave them unread.
    pub fn from_reader(bytes: &[u8]) -> (r: Result<Self, BufcliError>)
        ensures
            r is Ok <==> bytes@.len() >= 88,
            r is Ok ==> r.unwrap().values() == bytes_to_deciles(bytes@)
                && r.unwrap().values().len() == 11,
    {
        if bytes.len() < 88 {
            return Err(BufcliError::new("short deciles blob"));
        }
        let vals: [u64; 11] = [
            le_u64_at(bytes, 0),
            le_u64_at(bytes, 8),
            le_u64_at(bytes, 16),
            le_u64_at(bytes, 24),
            le_u64_at(bytes, 32),
            le_u64_at(bytes, 40),
            le_u64_at(bytes, 48),
            le_u64_at(bytes, 56),
            le_u64_at(bytes, 64),
            le_u64_at(bytes, 72),
            le_u64_at(bytes, 80),
        ];
        let r = Deciles { deciles: vals };
        proof {
            assert(r.values() =~= bytes_to_deciles(bytes@));
        }
        Ok(r)
    }

    /// Retrieve the value of a percentile, which must be a decile.
    pub fn value_at_percentile(&self, percentile: Percentile) -> (r: u64)
        requires
            percentile.spec_value() <= 100,
            percentile.spec_value() % 10 == 0,
        ensures
            r == self.values()[percentile.spec_value() as int / 10],
    {
        let Percentile(pct) = percentile;
        let idx = (pct / 10) as usize;
        self.deciles[idx]
    }
}

} // verus!
