//! A nullable byte array: values beside a validity bitmap, read out in
//! fixed-width batches. Each batch carries the values (padded with zeroes),
//! a bitmask that says which of them are valid, and the count of positions
//! the batch really covers.

use vstd::prelude::*;
use vstd::arithmetic::power2::{lemma2_to64, lemma_pow2_unfold, pow2};
use vstd::bits::{lemma_u64_pow2_no_overflow, lemma_u64_shl_is_mul};

verus! {

/// Holds the outside crate's bit-vector. Verus sees a value of this type
/// only through `bits_of` and the functions beside it.
#[verifier::external_body]
pub struct ValidityBits {
    inner: bitvec::vec::BitVec<usize, bitvec::order::Lsb0>,
}

/// The bits that the bit-vector holds, in index order.
pub uninterp spec fn bits_of(bv: ValidityBits) -> Seq<bool>;

/// Relies on bitvec's BitVec::new: a fresh bit-vector holds no bits.
#[verifier::external_body]
fn bits_new() -> (r: ValidityBits)
    ensures
        bits_of(r) == Seq::<bool>::empty(),
{
    ValidityBits { inner: bitvec::vec::BitVec::new() }
}

/// Relies on bitvec's BitVec::push: appends one bit at the back. Push
/// panics only at the crate's encoding limit, which the length bound here
/// stays far below.
#[verifier::external_body]
fn bits_push(bv: &mut ValidityBits, value: bool)
    requires
        bits_of(*old(bv)).len() < usize::MAX / 64,
    ensures
        bits_of(*final(bv)) == bits_of(*old(bv)).push(value),
{
    bv.inner.push(value)
}

/// Relies on bitvec's index operator on BitSlice: looks one bit up. An
/// out-of-range index panics and is kept out.
#[verifier::external_body]
fn bits_get(bv: &ValidityBits, i: usize) -> (b: bool)
    requires
        i < bits_of(*bv).len(),
    ensures
        b == bits_of(*bv)[i as int],
{
    bv.inner[i]
}

/// The value of a bitmask whose bit `j` is set exactly when `bits[j]` holds.
pub open spec fn mask_of(bits: Seq<bool>) -> int
    decreases bits.len(),
{
    if bits.len() == 0 {
        0
    } else {
        mask_of(bits.drop_last()) + (if bits.last() {
            pow2((bits.len() - 1) as nat) as int
        } else {
            0
        })
    }
}

/// A bitmask over `bits` fits below `pow2(bits.len())`.
proof fn lemma_mask_of_bound(bits: Seq<bool>)
    ensures
        0 <= mask_of(bits) < pow2(bits.len()),
    decreases bits.len(),
{
    if bits.len() == 0 {
        lemma2_to64();
    } else {
        lemma_mask_of_bound(bits.drop_last());
        lemma_pow2_unfold(bits.len());
    }
}

/// One fixed-width batch: the values, padded with zeroes past `len`; a
/// bitmask of the valid positions; and how many positions are covered.
#[derive(Debug)]
pub struct BatchItem {
    pub data: Vec<u8>,
    pub valid: u64,
    pub len: usize,
}

impl PartialEq for BatchItem {
    fn eq(&self, other: &BatchItem) -> (r: bool) {
        if self.valid != other.valid || self.len != other.len {
            return false;
        }
        if self.data.len() != other.data.len() {
            proof {
                assert(self.data@ != other.data@);
            }
            return false;
        }
        let n = self.data.len();
        let mut i: usize = 0;
        while i < n
            invariant
                n == self.data@.len(),
                n == other.data@.len(),
                i <= n,
                forall|k: int| 0 <= k < i ==> self.data@[k] == other.data@[k],
            decreases n - i,
        {
            if self.data[i] != other.data[i] {
                proof {
                    if self.data@ == other.data@ {
                        assert(self.data@[i as int] == other.data@[i as int]);
                    }
                }
                return false;
            }
            i += 1;
        }
        proof {
            assert(self.data@ =~= other.data@);
        }
        true
    }
}

impl vstd::std_specs::cmp::PartialEqSpecImpl for BatchItem {
    open spec fn obeys_eq_spec() -> bool {
        true
    }

    open spec fn eq_spec(&self, other: &BatchItem) -> bool {
        self.data@ == other.data@ && self.valid == other.valid && self.len == other.len
    }
}

/// What the batch at index `b` of width `width` must hold, given the values
/// and the validity bits of the whole array.
pub open spec fn batch_ok(
    data: Seq<u8>,
    valid: Seq<bool>,
    width: int,
    b: int,
    item: BatchItem,
) -> bool {
    let base = b * width;
    let blen = if data.len() - base < width {
        data.len() - base
    } else {
        width
    };
    &&& item.len == blen
    &&& item.data@.len() == width
    &&& (forall|j: int|
        0 <= j < width ==> item.data@[j] == (if j < blen {
            data[base + j]
        } else {
            0u8
        }))
    &&& item.valid as int == mask_of(Seq::new(blen as nat, |t: int| valid[base + t]))
}

/// Byte values beside a validity bitmap of the same length.
pub struct NullableArray {
    data: Vec<u8>,
    valid: ValidityBits,
}

impl NullableArray {
    /// The stored values, zero at the invalid positions.
    pub closed spec fn values(&self) -> Seq<u8> {
        self.data@
    }

    /// The validity bitmap.
    pub closed spec fn validity(&self) -> Seq<bool> {
        bits_of(self.valid)
    }

    /// The validity bitmap covers exactly the stored values.
    pub open spec fn wf(&self) -> bool {
        self.validity().len() == self.values().len()
    }

    /// How many positions the array covers.
    pub open spec fn spec_len(&self) -> int {
        self.values().len() as int
    }

    /// The value at position `i` (zero where the position is not valid).
    pub open spec fn value_at(&self, i: int) -> u8 {
        self.values()[i]
    }

    /// Whether position `i` holds a valid value.
    pub open spec fn valid_at(&self, i: int) -> bool {
        self.validity()[i]
    }

    /// Collects optional values: a missing value becomes a zero with its
    /// validity bit cleared.
    pub fn from_options(items: &Vec<Option<u8>>) -> (r: NullableArray)
        requires
            items@.len() < usize::MAX / 64,
        ensures
            r.wf(),
            r.spec_len() == items@.len(),
            forall|i: int| 0 <= i < items@.len() ==> r.valid_at(i) == (#[trigger] items@[i]
                is Some),
            forall|i: int| 0 <= i < items@.len() ==> r.value_at(i) == (match items@[i] {
                Option::Some(v) => v,
                Option::None => 0u8,
            }),
    {
        let n = items.len();
        let mut data: Vec<u8> = Vec::new();
        let mut valid = bits_new();
        let mut i: usize = 0;
        while i < n
            invariant
                n == items@.len(),
                n < usize::MAX / 64,
                i <= n,
                data@.len() == i,
                bits_of(valid).len() == i,
                forall|k: int| 0 <= k < i ==> bits_of(valid)[k] == (#[trigger] items@[k]
                    is Some),
                forall|k: int| 0 <= k < i ==> data@[k] == (match items@[k] {
                    Option::Some(v) => v,
                    Option::None => 0u8,
                }),
            decreases n - i,
        {
            match items[i] {
                Option::Some(v) => {
                    bits_push(&mut valid, true);
                    data.push(v);
                },
                Option::None => {
                    bits_push(&mut valid, false);
                    data.push(0);
                },
            }
            i += 1;
        }
        NullableArray { data, valid }
    }

    /// Reads the array out in batches of `width` positions. Every batch but
    /// the last covers exactly `width` positions; the last covers what is
    /// left. Values past a batch's end are zero, and bit `j` of a batch's
    /// mask is set exactly when the value at its position `j` is valid.
    pub fn batches(&self, width: usize) -> (r: Vec<BatchItem>)
        requires
            self.wf(),
            0 < width <= 64,
            self.spec_len() <= usize::MAX - 64,
        ensures
            r@.len() * width >= self.spec_len(),
            r@.len() > 0 ==> (r@.len() - 1) * width < self.spec_len(),
            self.spec_len() == 0 ==> r@.len() == 0,
            forall|b: int|
                0 <= b < r@.len() ==> batch_ok(
                    self.values(),
                    self.validity(),
                    width as int,
                    b,
                    #[trigger] r@[b],
                ),
    {
        let ghost bvs = bits_of(self.valid);
        let total = self.data.len();
        let mut result: Vec<BatchItem> = Vec::new();
        let mut base: usize = 0;
        proof {
            assert(result@.len() * width == 0) by (nonlinear_arith)
                requires
                    result@.len() == 0,
            ;
        }
        while base < total
            invariant
                total == self.data@.len(),
                bvs == bits_of(self.valid),
                bvs.len() == total,
                total <= usize::MAX - 64,
                0 < width <= 64,
                base == result@.len() * width,
                base <= total + width,
                result@.len() > 0 ==> (result@.len() - 1) * width < total,
                forall|bb: int|
                    0 <= bb < result@.len() ==> batch_ok(
                        self.data@,
                        bvs,
                        width as int,
                        bb,
                        #[trigger] result@[bb],
                    ),
            decreases total + width - base,
        {
            let ghost b = result@.len() as int;
            let blen = if total - base < width {
                total - base
            } else {
                width
            };
            let mut data: Vec<u8> = Vec::new();
            let mut j: usize = 0;
            while j < width
                invariant
                    total == self.data@.len(),
                    base + blen <= total,
                    blen <= width,
                    j <= width,
                    data@.len() == j,
                    forall|k: int|
                        0 <= k < j ==> data@[k] == (if k < blen {
                            self.data@[base + k]
                        } else {
                            0u8
                        }),
                decreases width - j,
            {
                if j < blen {
                    data.push(self.data[base + j]);
                } else {
                    data.push(0);
                }
                j += 1;
            }
            let mut mask: u64 = 0;
            let mut t: usize = 0;
            proof {
                assert(Seq::new(0nat, |u: int| bvs[base + u]) =~= Seq::<bool>::empty());
            }
            while t < blen
                invariant
                    bvs == bits_of(self.valid),
                    bvs.len() == total,
                    base + blen <= total,
                    blen <= width <= 64,
                    t <= blen,
                    mask as int == mask_of(Seq::new(t as nat, |u: int| bvs[base + u])),
                decreases blen - t,
            {
                let ghost before = Seq::new(t as nat, |u: int| bvs[base + u]);
                let ghost after = Seq::new((t + 1) as nat, |u: int| bvs[base + u]);
                if bits_get(&self.valid, base + t) {
                    proof {
                        lemma_u64_pow2_no_overflow(t as nat);
                        lemma_u64_shl_is_mul(1u64, t as u64);
                        lemma_mask_of_bound(before);
                        lemma_pow2_unfold((t + 1) as nat);
                        if t + 1 < 64 {
                            vstd::arithmetic::power2::lemma_pow2_strictly_increases(
                                (t + 1) as nat,
                                64nat,
                            );
                        }
                        lemma2_to64();
                    }
                    let weight: u64 = 1u64 << (t as u64);
                    mask = mask + weight;
                }
                proof {
                    assert(after.drop_last() =~= before);
                    assert(after.last() == bvs[base + t]);
                }
                t += 1;
            }
            let item = BatchItem { data, valid: mask, len: blen };
            proof {
                assert(base == b * width);
                assert(Seq::new(blen as nat, |u: int| bvs[base + u]) =~= Seq::new(
                    blen as nat,
                    |u: int| bvs[b * (width as int) + u],
                ));
                assert(batch_ok(self.data@, bvs, width as int, b, item));
            }
            result.push(item);
            proof {
                assert((b + 1) * width == b * width + width) by (nonlinear_arith);
            }
            base = base + width;
        }
        result
    }
}

} // verus!
