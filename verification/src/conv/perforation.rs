//! Perforated one-dimensional convolution: a jittered skip mask picks the
//! output positions that are computed exactly; every skipped position copies
//! the value of its nearest exactly-computed neighbor.

use vstd::prelude::*;

use vstd::arithmetic::div_mod::{lemma_div_is_ordered, lemma_div_multiples_vanish};

use crate::conv::{conv_cell, window_product};
use crate::sampler;
use crate::scalar::ScalarOps;
use crate::Error;

verus! {

/// The `i`-th anchor candidate of the jittered stride pattern:
/// `ceil(3 * (i + u_i) / 2)`, where `u_i = k_i / 2^23` is the `i`-th uniform
/// unit draw of the sampler seeded with zero.  Computed exactly: the
/// numerator is scaled by `2^23` so the ceiling becomes an integer division.
pub open spec fn anchor_pos(i: nat) -> int {
    (3 * (i * 0x80_0000 + sampler::unit_bits(0u64, i)) + 0xFF_FFFF) / 0x100_0000
}

/// The mask positions marked from candidate `i` on, starting from `acc`:
/// candidates are marked while they fall short of `length`, and the first
/// candidate at or beyond `length` ends the pattern.  (A candidate never
/// falls below its own index, so the guard on `i` is never the one that
/// stops the recursion.)
pub open spec fn mask_from(length: nat, i: nat, acc: Seq<bool>) -> Seq<bool>
    decreases length - i,
{
    if i >= length || anchor_pos(i) >= length {
        acc
    } else {
        mask_from(length, i + 1, acc.update(anchor_pos(i), true))
    }
}

/// The all-false mask of a given length.
pub open spec fn blank_mask(length: nat) -> Seq<bool> {
    Seq::new(length, |j: int| false)
}

/// The perforation mask for an output of `length` positions: `true` marks a
/// position computed exactly.
pub open spec fn mask_of(length: nat) -> Seq<bool> {
    mask_from(length, 0, blank_mask(length))
}

/// Whether any position of a mask is computed exactly.
pub open spec fn has_anchor(mask: Seq<bool>) -> bool {
    exists|j: int| 0 <= j < mask.len() && mask[j]
}

/// An anchor candidate never falls below its own index.
pub proof fn lemma_anchor_at_least(i: nat)
    ensures
        anchor_pos(i) >= i,
{
    let k = sampler::unit_bits(0u64, i) as int;
    let q0 = 0x100_0000 * (i as int);
    let q = 3 * ((i as int) * 0x80_0000 + k) + 0xFF_FFFF;
    assert(0x100_0000 * (i as int) <= 3 * ((i as int) * 0x80_0000 + k) + 0xFF_FFFF)
        by (nonlinear_arith)
        requires
            k >= 0,
            i >= 0,
    ;
    lemma_div_multiples_vanish(i as int, 0x100_0000);
    lemma_div_is_ordered(q0, q, 0x100_0000);
}

/// Marking candidates preserves the mask's length.
pub proof fn lemma_mask_from_len(length: nat, i: nat, acc: Seq<bool>)
    requires
        acc.len() == length,
    ensures
        mask_from(length, i, acc).len() == length,
    decreases length - i,
{
    if !(i >= length || anchor_pos(i) >= length) {
        lemma_anchor_at_least(i);
        lemma_mask_from_len(length, i + 1, acc.update(anchor_pos(i), true));
    }
}

/// A position once marked stays marked: later candidates only add anchors.
proof fn lemma_mask_from_keeps_true(length: nat, i: nat, acc: Seq<bool>, j: int)
    requires
        acc.len() == length,
        0 <= j < acc.len(),
        acc[j],
    ensures
        mask_from(length, i, acc)[j] == true,
    decreases length - i,
{
    if !(i >= length || anchor_pos(i) >= length) {
        lemma_anchor_at_least(i);
        lemma_mask_from_keeps_true(length, i + 1, acc.update(anchor_pos(i), true), j);
    }
}

/// A mask of three or more positions always has an anchor: the first
/// candidate is `ceil(3 * u_0 / 2)` for a unit draw `u_0 < 1`, so it lands
/// at position two or earlier.  Only output sizes one and two can raise
/// `DegenerateMask`.
pub proof fn lemma_long_masks_have_anchors(length: nat)
    requires
        length >= 3,
    ensures
        has_anchor(mask_of(length)),
{
    let k = sampler::unit_bits(0u64, 0) as int;
    let a0 = anchor_pos(0);
    assert(3 * (0 * 0x80_0000 + k) + 0xFF_FFFF <= 41_943_036) by {
        assert(sampler::unit_bits(0u64, 0) < 0x80_0000) by {
            let w = sampler::draw(0u64, 0);
            assert(w >> 41 < 0x80_0000u64) by (bit_vector);
        }
    }
    lemma_div_is_ordered(3 * (0 * 0x80_0000 + k) + 0xFF_FFFF, 41_943_036, 0x100_0000);
    assert(41_943_036int / 0x100_0000 == 2);
    lemma_anchor_at_least(0);
    assert(0 <= a0 <= 2);
    lemma_mask_from_len(length, 0, blank_mask(length));
    assert(mask_of(length) == mask_from(length, 1, blank_mask(length).update(a0, true)));
    lemma_mask_from_keeps_true(length, 1, blank_mask(length).update(a0, true), a0);
    assert(0 <= a0 < mask_of(length).len() && mask_of(length)[a0]);
}

/// The nearest position to `index` holding `value`, probing distance `d`
/// outward: the left candidate `index - d` is examined before the right
/// candidate `index + d`, so a tie falls to the left.  Yields `-1` when no
/// position other than `index` holds `value`.
pub open spec fn nearest_from(arr: Seq<bool>, index: int, value: bool, d: int) -> int
    decreases arr.len() + 1 - d,
{
    if d > arr.len() {
        -1
    } else if index - d >= 0 && arr[index - d] == value {
        index - d
    } else if index + d < arr.len() && arr[index + d] == value {
        index + d
    } else {
        nearest_from(arr, index, value, d + 1)
    }
}

/// The nearest position to `index` (other than `index` itself) holding
/// `value`, ties falling to the left; `-1` when there is none.
pub open spec fn nearest_index(arr: Seq<bool>, index: int, value: bool) -> int {
    nearest_from(arr, index, value, 1)
}

/// Once the probe radius has passed both ends of the array, no match is left.
proof fn lemma_nearest_exhausted(arr: Seq<bool>, index: int, value: bool, d: int)
    requires
        d >= 0,
        index - d < 0,
        index + d >= arr.len(),
    ensures
        nearest_from(arr, index, value, d) == -1,
    decreases arr.len() + 1 - d,
{
    if d <= arr.len() {
        lemma_nearest_exhausted(arr, index, value, d + 1);
    }
}

/// A match within reach guarantees that the probe finds something.
proof fn lemma_nearest_finds(arr: Seq<bool>, index: int, value: bool, d: int, j: int)
    requires
        1 <= d,
        0 <= index < arr.len(),
        0 <= j < arr.len(),
        arr[j] == value,
        j != index,
        j < index ==> index - j >= d,
        j > index ==> j - index >= d,
    ensures
        nearest_from(arr, index, value, d) >= 0,
    decreases arr.len() + 1 - d,
{
    if d > arr.len() {
        assert(false);
    } else if index - d >= 0 && arr[index - d] == value {
    } else if index + d < arr.len() && arr[index + d] == value {
    } else {
        lemma_nearest_finds(arr, index, value, d + 1, j);
    }
}

/// What a successful probe yields: a position in range, distinct from
/// `index`, holding `value`; and when the right side wins, the left
/// candidate at the same distance did not match.
proof fn lemma_nearest_props(arr: Seq<bool>, index: int, value: bool, d: int)
    requires
        1 <= d,
        0 <= index < arr.len(),
    ensures
        ({
            let r = nearest_from(arr, index, value, d);
            &&& (r >= 0 ==> 0 <= r < arr.len() && arr[r] == value && r != index)
            &&& (r > index ==> (2 * index - r >= 0 ==> arr[2 * index - r] != value))
        }),
    decreases arr.len() + 1 - d,
{
    if d > arr.len() {
    } else if index - d >= 0 && arr[index - d] == value {
    } else if index + d < arr.len() && arr[index + d] == value {
    } else {
        lemma_nearest_props(arr, index, value, d + 1);
    }
}

/// The distance between two positions.
pub open spec fn span(a: int, b: int) -> int {
    if a <= b {
        b - a
    } else {
        a - b
    }
}

proof fn lemma_nearest_from_minimal(arr: Seq<bool>, index: int, value: bool, d: int, j: int)
    requires
        1 <= d,
        0 <= index < arr.len(),
        0 <= j < arr.len(),
        arr[j] == value,
        j != index,
        span(index, j) >= d,
    ensures
        ({
            let r = nearest_from(arr, index, value, d);
            r >= 0 && span(index, r) <= span(index, j)
        }),
    decreases arr.len() + 1 - d,
{
    if d > arr.len() {
        assert(false);
    } else if index - d >= 0 && arr[index - d] == value {
    } else if index + d < arr.len() && arr[index + d] == value {
    } else {
        assert(span(index, j) != d) by {
            if span(index, j) == d {
                assert(j == index - d || j == index + d);
            }
        }
        lemma_nearest_from_minimal(arr, index, value, d + 1, j);
    }
}

/// What `nearest_index` means.  A result of `-1` says no position other
/// than `index` holds `value`.  A non-negative result is such a position at
/// minimal distance from `index`; when it lies to the right, the left
/// candidate at the same distance does not match — ties fall to the left.
pub proof fn lemma_nearest_index_minimal(arr: Seq<bool>, index: int, value: bool)
    requires
        0 <= index < arr.len(),
    ensures
        ({
            let r = nearest_index(arr, index, value);
            &&& (r == -1 ==> forall|j: int|
                0 <= j < arr.len() && j != index ==> arr[j] != value)
            &&& (r >= 0 ==> 0 <= r < arr.len() && arr[r] == value && r != index)
            &&& (r >= 0 ==> forall|j: int|
                0 <= j < arr.len() && j != index && #[trigger] arr[j] == value ==> span(index, r)
                    <= span(index, j))
            &&& (r > index ==> (2 * index - r >= 0 ==> arr[2 * index - r] != value))
        }),
{
    let r = nearest_index(arr, index, value);
    lemma_nearest_props(arr, index, value, 1);
    if r == -1 {
        assert forall|j: int| 0 <= j < arr.len() && j != index implies arr[j] != value by {
            if arr[j] == value {
                lemma_nearest_finds(arr, index, value, 1, j);
            }
        }
    } else {
        assert forall|j: int|
            0 <= j < arr.len() && j != index && #[trigger] arr[j] == value implies span(index, r)
            <= span(index, j) by {
            lemma_nearest_from_minimal(arr, index, value, 1, j);
        }
    }
}

/// The index of the entry nearest to `index` that equals `value`, probing
/// left before right at each radius, or `None` when no other entry matches.
pub fn find_index_of_nearest_neighbor(arr: &[bool], index: usize, value: bool) -> (r: Option<
    usize,
>)
    requires
        arr@.len() >= 1,
        index < arr@.len(),
    ensures
        ({
            let nb = nearest_index(arr@, index as int, value);
            r == if nb >= 0 {
                Some(nb as usize)
            } else {
                None::<usize>
            }
        }),
{
    let mut left: usize = index;
    let mut right: usize = index;
    let alen = arr.len();
    let ghost mut d: int = 1;

    while left > 0 || right < alen - 1
        invariant
            1 <= d,
            alen == arr@.len(),
            arr@.len() >= 1,
            index < arr@.len(),
            left == (if index >= d - 1 {
                index - (d - 1)
            } else {
                0
            }),
            right == (if index + (d - 1) < arr@.len() {
                index + (d - 1)
            } else {
                arr@.len() - 1
            }),
            nearest_from(arr@, index as int, value, d) == nearest_index(
                arr@,
                index as int,
                value,
            ),
        decreases left + arr@.len() - 1 - right,
    {
        if left > 0 {
            if arr[left - 1] == value {
                return Some(left - 1);
            }
            left = left - 1;
        }
        if right < alen - 1 {
            if arr[right + 1] == value {
                return Some(right + 1);
            }
            right = right + 1;
        }
        proof {
            d = d + 1;
        }
    }
    proof {
        lemma_nearest_exhausted(arr@, index as int, value, d);
    }
    None
}

/// Draws the next unit sample and computes the `i`-th anchor candidate
/// exactly, as `(3 * (i * 2^23 + k) + 2^24 - 1) / 2^24`.
fn anchor_candidate(rng: &mut sampler::Xoshiro256, i: usize) -> (a: u128)
    ensures
        *final(rng) == sampler::step_state(*old(rng)),
        a == (3 * ((i as int) * 0x80_0000 + sampler::unit_bits_of(
            sampler::step_output(*old(rng)),
        )) + 0xFF_FFFF) / 0x100_0000,
{
    let k = rng.next_unit_bits();
    (3 * ((i as u128) * 0x80_0000 + (k as u128)) + 0xFF_FFFF) / 0x100_0000
}

/// Generates the jittered anchor mask for `length` output positions;
/// `r.1` reports whether any position was marked at all.
#[verifier::rlimit(30)]
fn build_mask(length: usize) -> (r: (Vec<bool>, bool))
    ensures
        r.0@ == mask_of(length as nat),
        r.0@.len() == length,
        r.1 <==> has_anchor(r.0@),
{
    let mut mask: Vec<bool> = Vec::new();
    let mut c: usize = 0;
    while c < length
        invariant
            c <= length,
            mask@.len() == c,
            forall|j: int| 0 <= j < c ==> !mask@[j],
        decreases length - c,
    {
        mask.push(false);
        c = c + 1;
    }
    proof {
        assert(mask@ =~= blank_mask(length as nat));
        lemma_mask_from_len(length as nat, 0, mask@);
    }

    let mut rng = sampler::Xoshiro256::from_seed(0);
    let mut i: usize = 0;
    let mut any: bool = false;
    proof {
        assert(sampler::state_at(0u64, 0nat) == sampler::seeded(0u64));
    }
    let mut pos: u128 = anchor_candidate(&mut rng, i);
    proof {
        assert(sampler::state_at(0u64, 1nat) == sampler::step_state(sampler::state_at(0u64, 0nat)));
    }
    while pos < length as u128
        invariant
            mask@.len() == length,
            rng == sampler::state_at(0u64, (i + 1) as nat),
            pos == anchor_pos(i as nat),
            i <= length,
            mask_from(length as nat, i as nat, mask@) == mask_of(length as nat),
            any <==> has_anchor(mask@),
        decreases length - i,
    {
        proof {
            lemma_anchor_at_least(i as nat);
        }
        let a = pos as usize;
        mask.set(a, true);
        any = true;
        proof {
            assert(mask@[a as int]);
        }
        i = i + 1;
        pos = anchor_candidate(&mut rng, i);
        proof {
            assert(sampler::state_at(0u64, (i + 1) as nat) == sampler::step_state(
                sampler::state_at(0u64, i as nat),
            ));
            lemma_anchor_at_least(i as nat);
        }
    }
    proof {
        assert(mask_from(length as nat, i as nat, mask@) == mask@);
    }
    (mask, any)
}

/// Collects one `(skipped, anchor)` pair for every position the mask leaves
/// out, in ascending order of skipped position.
#[verifier::rlimit(30)]
fn neighbor_map(mask: &Vec<bool>) -> (nbrs: Vec<(usize, usize)>)
    requires
        mask@.len() > 0 ==> has_anchor(mask@),
    ensures
        forall|t: int|
            0 <= t < nbrs@.len() ==> {
                let pr = #[trigger] nbrs@[t];
                &&& pr.0 < mask@.len()
                &&& !mask@[pr.0 as int]
                &&& pr.1 < mask@.len()
                &&& mask@[pr.1 as int]
                &&& pr.1 as int == nearest_index(mask@, pr.0 as int, true)
            },
        forall|t1: int, t2: int|
            0 <= t1 < t2 < nbrs@.len() ==> (#[trigger] nbrs@[t1]).0 < (#[trigger] nbrs@[t2]).0,
        forall|i: int|
            0 <= i < mask@.len() && !mask@[i] ==> exists|t: int|
                0 <= t < nbrs@.len() && (#[trigger] nbrs@[t]).0 == i,
{
    let length = mask.len();
    let mut nbrs: Vec<(usize, usize)> = Vec::new();
    let mut idx: usize = 0;
    while idx < length
        invariant
            idx <= length,
            mask@.len() == length,
            length > 0 ==> has_anchor(mask@),
            forall|t: int|
                0 <= t < nbrs@.len() ==> {
                    let pr = #[trigger] nbrs@[t];
                    &&& pr.0 < idx
                    &&& !mask@[pr.0 as int]
                    &&& pr.1 < length
                    &&& mask@[pr.1 as int]
                    &&& pr.1 as int == nearest_index(mask@, pr.0 as int, true)
                },
            forall|t1: int, t2: int|
                0 <= t1 < t2 < nbrs@.len() ==> (#[trigger] nbrs@[t1]).0 < (#[trigger] nbrs@[t2]).0,
            forall|i2: int|
                0 <= i2 < idx && !mask@[i2] ==> exists|t: int|
                    0 <= t < nbrs@.len() && (#[trigger] nbrs@[t]).0 == i2,
        decreases length - idx,
    {
        if !mask[idx] {
            proof {
                let jw = choose|j: int| 0 <= j < mask@.len() && mask@[j];
                lemma_nearest_finds(mask@, idx as int, true, 1, jw);
                lemma_nearest_props(mask@, idx as int, true, 1);
            }
            let nb = find_index_of_nearest_neighbor(mask.as_slice(), idx, true).unwrap();
            let ghost old_nbrs = nbrs@;
            nbrs.push((idx, nb));
            proof {
                assert forall|i2: int| 0 <= i2 < idx + 1 && !mask@[i2] implies exists|t: int|
                    0 <= t < nbrs@.len() && (#[trigger] nbrs@[t]).0 == i2 by {
                    if i2 == idx {
                        assert((nbrs@[nbrs@.len() - 1]).0 == i2);
                    } else {
                        let t0 = choose|t: int|
                            0 <= t < old_nbrs.len() && (#[trigger] old_nbrs[t]).0 == i2;
                        assert((nbrs@[t0]).0 == i2);
                    }
                }
            }
        }
        idx = idx + 1;
    }
    nbrs
}

/// Builds the perforation mask for `length` output positions, together with
/// the neighbor map: one `(skipped, anchor)` pair, in ascending order of
/// skipped position, for every position the mask leaves out.  Fails with
/// `DegenerateMask` when a nonempty mask has no anchor at all.
pub fn pseudo_mask(length: usize) -> (r: Result<(Vec<bool>, Vec<(usize, usize)>), Error>)
    ensures
        r is Err ==> r->Err_0 == Error::DegenerateMask && length > 0 && !has_anchor(
            mask_of(length as nat),
        ),
        r is Ok ==> r->Ok_0.0@ == mask_of(length as nat),
        r is Ok ==> r->Ok_0.0@.len() == length,
        r is Ok ==> (length > 0 ==> has_anchor(r->Ok_0.0@)),
        r is Ok ==> forall|t: int|
            0 <= t < r->Ok_0.1@.len() ==> {
                let pr = #[trigger] r->Ok_0.1@[t];
                &&& pr.0 < length
                &&& !r->Ok_0.0@[pr.0 as int]
                &&& pr.1 < length
                &&& r->Ok_0.0@[pr.1 as int]
                &&& pr.1 as int == nearest_index(r->Ok_0.0@, pr.0 as int, true)
            },
        r is Ok ==> forall|t1: int, t2: int|
            0 <= t1 < t2 < r->Ok_0.1@.len() ==> (#[trigger] r->Ok_0.1@[t1]).0 < (
            #[trigger] r->Ok_0.1@[t2]).0,
        r is Ok ==> forall|i: int|
            0 <= i < length && !r->Ok_0.0@[i] ==> exists|t: int|
                0 <= t < r->Ok_0.1@.len() && (#[trigger] r->Ok_0.1@[t]).0 == i,
{
    let (mask, any) = build_mask(length);
    if length > 0 && !any {
        return Err(Error::DegenerateMask);
    }
    let nbrs = neighbor_map(&mask);
    let pair = (mask, nbrs);
    proof {
        assert forall|i: int| 0 <= i < length && !pair.0@[i] implies exists|t: int|
            0 <= t < pair.1@.len() && (#[trigger] pair.1@[t]).0 == i by {
            let t0 = choose|t: int| 0 <= t < pair.1@.len() && (#[trigger] pair.1@[t]).0 == i;
            assert((pair.1@[t0]).0 == i);
        }
    }
    Ok(pair)
}

/// The perforated convolution: exactly the declared output size of the exact
/// convolution, but only the masked positions are computed; every other
/// position copies its nearest computed neighbor's value (ties to the left).
/// Fails with `KernelTooLarge` when the kernel is longer than the input, and
/// with `DegenerateMask` when the mask for this output size has no computed
/// position to copy from.
pub fn conv1d<S: ScalarOps>(input: &[u32], kernel: &[u32]) -> (r: Result<Vec<u32>, Error>)
    requires
        input@.len() - kernel@.len() + 1 <= usize::MAX,
    ensures
        kernel@.len() > input@.len() ==> r == Err::<Vec<u32>, Error>(Error::KernelTooLarge),
        kernel@.len() <= input@.len() ==> ({
            let osize = input@.len() - kernel@.len() + 1;
            let mask = mask_of(osize as nat);
            match r {
                Ok(out) => {
                    &&& out@.len() == osize
                    &&& forall|i: int|
                        0 <= i < osize && mask[i] ==> out@[i] == conv_cell::<S>(
                            input@,
                            kernel@,
                            i,
                        )
                    &&& forall|i: int|
                        0 <= i < osize && !mask[i] ==> {
                            let nb = nearest_index(mask, i, true);
                            &&& 0 <= nb < osize
                            &&& mask[nb]
                            &&& out@[i] == conv_cell::<S>(input@, kernel@, nb)
                        }
                },
                Err(e) => {
                    &&& e == Error::DegenerateMask
                    &&& osize > 0
                    &&& !has_anchor(mask)
                },
            }
        }),
{
    if kernel.len() > input.len() {
        return Err(Error::KernelTooLarge);
    }
    let osize = input.len() - kernel.len() + 1;
    let (mask, nbrs) = match pseudo_mask(osize) {
        Ok(pair) => pair,
        Err(e) => {
            return Err(e);
        },
    };

    let klen = kernel.len();
    let mut out: Vec<u32> = Vec::new();
    let mut i: usize = 0;
    while i < osize
        invariant
            i <= osize,
            klen == kernel@.len(),
            osize == input@.len() - kernel@.len() + 1,
            klen <= input@.len(),
            mask@.len() == osize,
            out@.len() == i,
            forall|i2: int|
                0 <= i2 < i && mask@[i2] ==> out@[i2] == conv_cell::<S>(input@, kernel@, i2),
        decreases osize - i,
    {
        if mask[i] {
            out.push(window_product::<S>(input, kernel, i));
        } else {
            out.push(0);
        }
        i = i + 1;
    }

    let count = nbrs.len();
    let mut t: usize = 0;
    while t < count
        invariant
            t <= count,
            count == nbrs@.len(),
            mask@.len() == osize,
            mask@ == mask_of(osize as nat),
            out@.len() == osize,
            forall|t0: int|
                0 <= t0 < nbrs@.len() ==> {
                    let pr = #[trigger] nbrs@[t0];
                    &&& pr.0 < osize
                    &&& !mask@[pr.0 as int]
                    &&& pr.1 < osize
                    &&& mask@[pr.1 as int]
                    &&& pr.1 as int == nearest_index(mask@, pr.0 as int, true)
                },
            forall|t1: int, t2: int|
                0 <= t1 < t2 < nbrs@.len() ==> (#[trigger] nbrs@[t1]).0 < (#[trigger] nbrs@[t2]).0,
            forall|i2: int|
                0 <= i2 < osize && mask@[i2] ==> out@[i2] == conv_cell::<S>(input@, kernel@, i2),
            forall|t0: int|
                0 <= t0 < t ==> out@[(#[trigger] nbrs@[t0]).0 as int] == conv_cell::<S>(
                    input@,
                    kernel@,
                    nbrs@[t0].1 as int,
                ),
        decreases count - t,
    {
        let pr = nbrs[t];
        let v = out[pr.1];
        out.set(pr.0, v);
        t = t + 1;
    }

    proof {
        assert forall|i2: int| 0 <= i2 < osize && !mask@[i2] implies {
            let nb = nearest_index(mask@, i2, true);
            &&& 0 <= nb < osize
            &&& mask@[nb]
            &&& out@[i2] == conv_cell::<S>(input@, kernel@, nb)
        } by {
            let t0 = choose|t0: int| 0 <= t0 < nbrs@.len() && (#[trigger] nbrs@[t0]).0 == i2;
        }
    }
    Ok(out)
}

} // verus!
