//! Where to sample a device, and what to read at each sample point.

use vstd::arithmetic::{div_mod, mul};
use vstd::prelude::*;

use crate::config::SampleDuration;
use crate::error::RunError;

verus! {

/// The most bytes that one read asks for.
pub const READ_CHUNK_BYTES: u64 = 0x40_0000;

/// What offsets and lengths of direct reads are multiples of.
pub const ALIGNMENT: u64 = 4096;

/// The room kept free behind the last sample point of a large device.
pub const END_RUNWAY_BYTES: u64 = 0x4000_0000;

/// The largest multiple of `alignment` that is at most `value`.
pub open spec fn aligned_down(value: nat, alignment: nat) -> nat {
    value / alignment * alignment
}

/// The largest multiple of `alignment` that is at most `value`.
pub fn align_down(value: u64, alignment: u64) -> (aligned: u64)
    requires
        alignment > 0,
    ensures
        aligned == aligned_down(value as nat, alignment as nat),
        aligned <= value < aligned + alignment,
        aligned % alignment == 0,
{
    proof {
        law_aligned_down(value as nat, alignment as nat);
    }
    value / alignment * alignment
}

/// Aligning down gives a multiple of the alignment that is at most the value and less than one
/// alignment below it.
pub proof fn law_aligned_down(value: nat, alignment: nat)
    requires
        alignment > 0,
    ensures
        aligned_down(value, alignment) % alignment == 0,
        aligned_down(value, alignment) <= value < aligned_down(value, alignment) + alignment,
{
    div_mod::lemma_fundamental_div_mod(value as int, alignment as int);
    mul::lemma_mul_is_commutative(value as int / alignment as int, alignment as int);
    div_mod::lemma_mod_multiples_basic(value as int / alignment as int, alignment as int);
}

/// `a - b`, or 0 where `b` is larger.
pub open spec fn minus(a: nat, b: nat) -> nat {
    if a < b {
        0
    } else {
        (a - b) as nat
    }
}

/// The room kept free behind the last sample point.
pub open spec fn end_runway(device_size: nat) -> nat {
    if device_size > END_RUNWAY_BYTES + ALIGNMENT {
        END_RUNWAY_BYTES as nat
    } else {
        ALIGNMENT as nat
    }
}

/// The offset of the last sample point.
pub open spec fn max_offset(device_size: nat) -> nat {
    aligned_down(minus(device_size, end_runway(device_size)), ALIGNMENT as nat)
}

/// How many sample points a device of this size gets: as many as are asked for. Where there is no
/// room for a second one, the start of the device is a sample point even if none is asked for.
pub open spec fn offset_count(device_size: nat, bins: nat) -> nat {
    if bins == 0 && max_offset(device_size) == 0 {
        1
    } else {
        bins
    }
}

/// The offset of sample point `index`: its share of the way to the last one, aligned down.
pub open spec fn offset_at(device_size: nat, bins: nat, index: nat) -> nat {
    if bins <= 1 || max_offset(device_size) == 0 {
        0
    } else {
        aligned_down(max_offset(device_size) * index / ((bins - 1) as nat), ALIGNMENT as nat)
    }
}

/// The offsets of all sample points.
pub open spec fn planned_offsets(device_size: nat, bins: nat) -> Seq<u64> {
    Seq::new(
        offset_count(device_size, bins),
        |i: int| offset_at(device_size, bins, i as nat) as u64,
    )
}

/// An offset is at most the last one, hence a valid device offset.
proof fn lemma_offset_bound(device_size: nat, bins: nat, index: nat)
    requires
        index < offset_count(device_size, bins),
    ensures
        offset_at(device_size, bins, index) <= max_offset(device_size) <= device_size,
        bins > 1 && max_offset(device_size) > 0 ==> max_offset(device_size) * index / ((bins
            - 1) as nat) <= max_offset(device_size),
{
    let max = max_offset(device_size);
    law_aligned_down(minus(device_size, end_runway(device_size)), ALIGNMENT as nat);
    if bins > 1 && max > 0 {
        let parts = (bins - 1) as nat;
        let raw = max * index / parts;
        assert(max * index <= max * parts) by (nonlinear_arith)
            requires
                index <= parts,
        ;
        div_mod::lemma_div_is_ordered((max * index) as int, (max * parts) as int, parts as int);
        div_mod::lemma_div_multiples_vanish(max as int, parts as int);
        mul::lemma_mul_is_commutative(max as int, parts as int);
        law_aligned_down(raw, ALIGNMENT as nat);
    }
}

/// The offsets of the sample points of a device: `bins` of them, evenly spaced from its start up
/// to the runway at its end. Points coincide where there is no room to keep them apart.
pub fn sample_offsets(device_size: u64, bins: usize) -> (offsets: Vec<u64>)
    ensures
        offsets@ == planned_offsets(device_size as nat, bins as nat),
        bins > 0 ==> offsets@.len() == bins && offsets@[0] == 0,
        bins > 1 && device_size > 0x4000_1000 ==> offsets@[bins - 1] + 0x4000_0000 <= device_size
            < offsets@[bins - 1] + 0x4000_1000,
        bins > 1 && 4096 <= device_size <= 0x4000_1000 ==> offsets@[bins - 1] + 4096 <= device_size
            < offsets@[bins - 1] + 8192,
{
    let end_runway = if device_size > END_RUNWAY_BYTES + ALIGNMENT {
        END_RUNWAY_BYTES
    } else {
        ALIGNMENT
    };
    let max_offset = align_down(device_size.saturating_sub(end_runway), ALIGNMENT);
    let count: usize = if bins == 0 && max_offset == 0 {
        1
    } else {
        bins
    };
    let mut offsets: Vec<u64> = Vec::new();
    let mut index: usize = 0;
    while index < count
        invariant
            index <= count,
            count == offset_count(device_size as nat, bins as nat),
            max_offset == self::max_offset(device_size as nat),
            offsets@ == planned_offsets(device_size as nat, bins as nat).take(index as int),
        decreases count - index,
    {
        proof {
            lemma_offset_bound(device_size as nat, bins as nat, index as nat);
            assert(max_offset * index <= u64::MAX * u64::MAX) by (nonlinear_arith)
                requires
                    max_offset <= u64::MAX,
                    index <= u64::MAX,
            ;
        }
        if bins <= 1 || max_offset == 0 {
            offsets.push(0);
        } else {
            let raw: u128 = (max_offset as u128 * index as u128) / (bins - 1) as u128;
            offsets.push(align_down(raw as u64, ALIGNMENT));
        }
        index = index + 1;
        assert(offsets@ =~= planned_offsets(device_size as nat, bins as nat).take(index as int));
    }
    assert(planned_offsets(device_size as nat, bins as nat).take(count as int) =~= planned_offsets(
        device_size as nat,
        bins as nat,
    ));
    proof {
        if bins > 1 {
            law_last_sample_point_is_before_the_runway(device_size, bins);
            law_sample_points_share_the_way_evenly(device_size, bins, 0);
        } else if bins == 1 {
            law_single_sample_at_start(device_size);
        }
    }
    offsets
}

/// Every sample point lies on an aligned offset of the device.
pub proof fn law_offsets_are_aligned(device_size: u64, bins: usize, index: int)
    requires
        0 <= index < planned_offsets(device_size as nat, bins as nat).len(),
    ensures
        planned_offsets(device_size as nat, bins as nat)[index] == offset_at(
            device_size as nat,
            bins as nat,
            index as nat,
        ),
        planned_offsets(device_size as nat, bins as nat)[index] % ALIGNMENT == 0,
{
    lemma_offset_bound(device_size as nat, bins as nat, index as nat);
    if bins > 1 && max_offset(device_size as nat) > 0 {
        law_aligned_down(
            max_offset(device_size as nat) * index as nat / ((bins - 1) as nat),
            ALIGNMENT as nat,
        );
    }
}

/// Behind every sample point there is room for at least one aligned read, and for the whole
/// runway where the device is large.
pub proof fn law_offsets_leave_room(device_size: u64, bins: usize, index: int)
    requires
        device_size >= ALIGNMENT,
        0 <= index < planned_offsets(device_size as nat, bins as nat).len(),
    ensures
        planned_offsets(device_size as nat, bins as nat)[index] + ALIGNMENT <= device_size,
        planned_offsets(device_size as nat, bins as nat)[index] + end_runway(device_size as nat)
            <= device_size,
{
    lemma_offset_bound(device_size as nat, bins as nat, index as nat);
    law_aligned_down(
        minus(device_size as nat, end_runway(device_size as nat)),
        ALIGNMENT as nat,
    );
}

/// The sample points are evenly spaced: each is its share of the way to the last one, less what
/// alignment takes off, which is less than one alignment. The first is the start of the device,
/// the last is as far out as the runway lets it be.
pub proof fn law_offsets_are_evenly_spaced(device_size: u64, bins: usize, index: int)
    requires
        bins > 1,
        0 <= index < bins,
    ensures
        ({
            let offsets = planned_offsets(device_size as nat, bins as nat);
            let max = max_offset(device_size as nat);
            &&& offsets.len() == bins
            &&& offsets[index] * (bins - 1) <= max * index < (offsets[index] + ALIGNMENT) * (bins
                - 1)
            &&& offsets[0] == 0
            &&& offsets[bins - 1] == max
        }),
{
    let max = max_offset(device_size as nat);
    let parts = (bins - 1) as nat;
    lemma_offset_bound(device_size as nat, bins as nat, index as nat);
    lemma_offset_bound(device_size as nat, bins as nat, 0);
    lemma_offset_bound(device_size as nat, bins as nat, parts);
    assert(max * 0 == 0);
    if max == 0 {
        let offset = planned_offsets(device_size as nat, bins as nat)[index];
        assert(offset * parts == 0 == max * index < (offset + ALIGNMENT) * parts)
            by (nonlinear_arith)
            requires
                offset == 0,
                max == 0,
                parts > 0,
                ALIGNMENT > 0,
        ;
    } else {
        let raw = max * index as nat / parts;
        let offset = aligned_down(raw, ALIGNMENT as nat);
        law_aligned_down(raw, ALIGNMENT as nat);
        div_mod::lemma_fundamental_div_mod(max * index, parts as int);
        assert(offset * parts <= max * index < (offset + ALIGNMENT) * parts) by (nonlinear_arith)
            requires
                offset <= raw < offset + ALIGNMENT,
                max * index == parts * raw + (max * index) % (parts as int),
                0 <= (max * index) % (parts as int) < parts,
        ;
        mul::lemma_mul_is_commutative(max as int, parts as int);
        div_mod::lemma_div_multiples_vanish(max as int, parts as int);
        div_mod::lemma_div_multiples_vanish(
            minus(device_size as nat, end_runway(device_size as nat)) as int / ALIGNMENT as int,
            ALIGNMENT as int,
        );
    }
}

/// The last of several sample points is the last aligned offset with 1 GiB of the device behind it
/// or, where the device is no larger than 1 GiB and one block of 4 KiB, with one such block behind
/// it.
pub proof fn law_last_sample_point_is_before_the_runway(device_size: u64, bins: usize)
    requires
        bins > 1,
    ensures
        ({
            let offsets = planned_offsets(device_size as nat, bins as nat);
            let last = offsets[bins - 1];
            &&& offsets.len() == bins
            &&& last % 4096 == 0
            &&& device_size > 0x4000_1000 ==> last + 0x4000_0000 <= device_size < last
                + 0x4000_1000
            &&& 4096 <= device_size <= 0x4000_1000 ==> last + 4096 <= device_size < last + 8192
            &&& device_size < 4096 ==> last == 0
        }),
{
    law_offsets_are_evenly_spaced(device_size, bins, bins - 1);
    law_aligned_down(minus(device_size as nat, end_runway(device_size as nat)), 4096);
}

/// Each of several sample points is the last block of 4 KiB that begins at or before its even
/// share of the way to the last one, from the start of the device on.
pub proof fn law_sample_points_share_the_way_evenly(device_size: u64, bins: usize, index: int)
    requires
        bins > 1,
        0 <= index < bins,
    ensures
        ({
            let offsets = planned_offsets(device_size as nat, bins as nat);
            let last = offsets[bins - 1];
            &&& offsets[0] == 0
            &&& offsets[index] % 4096 == 0
            &&& offsets[index] * (bins - 1) <= last * index < (offsets[index] + 4096) * (bins - 1)
        }),
{
    law_offsets_are_evenly_spaced(device_size, bins, index);
    law_offsets_are_aligned(device_size, bins, index);
}

/// Among devices with the same runway, a larger one has no sample point further in, and devices
/// with the same number of whole blocks of 4 KiB have the same sample points.
pub proof fn law_larger_devices_are_sampled_further_out(
    device_size: u64,
    larger: u64,
    bins: usize,
    index: int,
)
    requires
        device_size <= larger,
        device_size > 0x4000_1000 || larger <= 0x4000_1000,
        bins > 0,
        0 <= index < bins,
    ensures
        planned_offsets(device_size as nat, bins as nat)[index] <= planned_offsets(
            larger as nat,
            bins as nat,
        )[index],
        device_size / 4096 == larger / 4096 && (device_size <= 0x4000_1000) == (larger
            <= 0x4000_1000) ==> planned_offsets(device_size as nat, bins as nat)
            == planned_offsets(larger as nat, bins as nat),
{
    let a = max_offset(device_size as nat);
    let b = max_offset(larger as nat);
    let less = minus(device_size as nat, end_runway(device_size as nat));
    let more = minus(larger as nat, end_runway(larger as nat));
    div_mod::lemma_div_is_ordered(less as int, more as int, 4096);
    assert(a <= b);
    lemma_offset_bound(device_size as nat, bins as nat, index as nat);
    lemma_offset_bound(larger as nat, bins as nat, index as nat);
    if bins > 1 && a > 0 {
        assert(a * index <= b * index) by (nonlinear_arith)
            requires
                a <= b,
                index >= 0,
        ;
        div_mod::lemma_div_is_ordered(a * index, b * index, bins - 1);
        div_mod::lemma_div_is_ordered(a * index / (bins - 1), b * index / (bins - 1), 4096);
    }
    if device_size / 4096 == larger / 4096 && (device_size <= 0x4000_1000) == (larger
        <= 0x4000_1000) {
        assert(a == b);
        assert(planned_offsets(device_size as nat, bins as nat) =~= planned_offsets(
            larger as nat,
            bins as nat,
        ));
    }
}

/// A single sample is taken at the start of the device.
pub proof fn law_single_sample_at_start(device_size: u64)
    ensures
        planned_offsets(device_size as nat, 1) == seq![0u64],
{
    assert(planned_offsets(device_size as nat, 1) =~= seq![0u64]);
}

/// A device without room for a second sample point has all its samples at its start.
pub proof fn law_cramped_devices_are_sampled_at_start(device_size: u64, bins: usize, index: int)
    requires
        max_offset(device_size as nat) == 0,
        0 <= index < planned_offsets(device_size as nat, bins as nat).len(),
    ensures
        planned_offsets(device_size as nat, bins as nat)[index] == 0,
{
}

/// A run takes exactly as many samples as it is asked for.
pub proof fn law_runs_take_all_samples(device_size: u64, bins: usize)
    requires
        bins > 0,
    ensures
        planned_offsets(device_size as nat, bins as nat).len() == bins,
{
}

/// The sample points come in ascending order.
pub proof fn law_offsets_ascend(device_size: u64, bins: usize, i: int, j: int)
    requires
        0 <= i <= j < planned_offsets(device_size as nat, bins as nat).len(),
    ensures
        planned_offsets(device_size as nat, bins as nat)[i] <= planned_offsets(
            device_size as nat,
            bins as nat,
        )[j],
{
    let max = max_offset(device_size as nat);
    lemma_offset_bound(device_size as nat, bins as nat, i as nat);
    lemma_offset_bound(device_size as nat, bins as nat, j as nat);
    if bins > 1 && max > 0 {
        assert(max * i <= max * j) by (nonlinear_arith)
            requires
                i <= j,
                max >= 0,
        ;
        div_mod::lemma_div_is_ordered(max * i, max * j, bins - 1);
        div_mod::lemma_div_is_ordered(
            max * i / (bins - 1),
            max * j / (bins - 1),
            ALIGNMENT as int,
        );
    }
}

/// The number of whole blocks of the alignment up to the last sample point.
pub open spec fn max_block(device_size: nat) -> nat {
    minus(device_size, end_runway(device_size)) / ALIGNMENT as nat
}

/// In blocks of the alignment, a sample point is its share of the way to the last one.
proof fn lemma_offset_in_blocks(device_size: nat, bins: nat, index: nat)
    requires
        bins > 1,
    ensures
        offset_at(device_size, bins, index) == max_block(device_size) * index / ((bins - 1) as nat)
            * ALIGNMENT,
        max_offset(device_size) == max_block(device_size) * ALIGNMENT,
{
    let blocks = max_block(device_size) as int;
    let parts = bins - 1;
    let i = index as int;
    let max = max_offset(device_size) as int;
    assert(max == blocks * 4096);
    assert(max * i == (blocks * i) * 4096) by (nonlinear_arith)
        requires
            max == blocks * 4096,
    ;
    assert(blocks * i >= 0) by (nonlinear_arith)
        requires
            blocks >= 0,
            i >= 0,
    ;
    div_mod::lemma_div_denominator(max * i, parts, 4096);
    div_mod::lemma_div_denominator((blocks * i) * 4096, 4096, parts);
    mul::lemma_mul_is_commutative(parts, 4096);
    div_mod::lemma_div_by_multiple(blocks * i, 4096);
    if max == 0 {
        assert(blocks * i == 0) by (nonlinear_arith)
            requires
                blocks == 0,
        ;
        assert(0int / parts == 0) by (nonlinear_arith)
            requires
                parts > 0,
        ;
    }
}

/// Two gaps between neighbouring sample points differ by at most one alignment.
pub proof fn law_gaps_differ_by_at_most_one_block(device_size: u64, bins: usize, i: int, j: int)
    requires
        0 <= i < bins - 1,
        0 <= j < bins - 1,
    ensures
        ({
            let offsets = planned_offsets(device_size as nat, bins as nat);
            let gap_i = offsets[i + 1] - offsets[i];
            let gap_j = offsets[j + 1] - offsets[j];
            -ALIGNMENT <= gap_i - gap_j <= ALIGNMENT
        }),
{
    let size = device_size as nat;
    let blocks = max_block(size) as int;
    let parts = bins - 1;
    lemma_offset_bound(size, bins as nat, i as nat);
    lemma_offset_bound(size, bins as nat, (i + 1) as nat);
    lemma_offset_bound(size, bins as nat, j as nat);
    lemma_offset_bound(size, bins as nat, (j + 1) as nat);
    lemma_offset_in_blocks(size, bins as nat, i as nat);
    lemma_offset_in_blocks(size, bins as nat, (i + 1) as nat);
    lemma_offset_in_blocks(size, bins as nat, j as nat);
    lemma_offset_in_blocks(size, bins as nat, (j + 1) as nat);
    lemma_block_gap(blocks, parts, i);
    lemma_block_gap(blocks, parts, j);
}

/// A gap in blocks is the even share, rounded down or up.
proof fn lemma_block_gap(blocks: int, parts: int, i: int)
    requires
        blocks >= 0,
        parts > 0,
        i >= 0,
    ensures
        blocks / parts <= blocks * (i + 1) / parts - blocks * i / parts <= blocks / parts + 1,
{
    let q = blocks / parts;
    let r = blocks % parts;
    let a = blocks * i / parts;
    let ra = blocks * i % parts;
    let b = blocks * (i + 1) / parts;
    let rb = blocks * (i + 1) % parts;
    div_mod::lemma_fundamental_div_mod(blocks, parts);
    div_mod::lemma_fundamental_div_mod(blocks * i, parts);
    div_mod::lemma_fundamental_div_mod(blocks * (i + 1), parts);
    mul::lemma_mul_is_distributive_add(blocks, i, 1);
    assert(parts * (b - a - q) == ra + r - rb) by (nonlinear_arith)
        requires
            blocks == parts * q + r,
            blocks * i == parts * a + ra,
            blocks * (i + 1) == parts * b + rb,
            blocks * (i + 1) == blocks * i + blocks,
    ;
    assert(0 <= b - a - q <= 1) by (nonlinear_arith)
        requires
            parts * (b - a - q) == ra + r - rb,
            0 <= r < parts,
            0 <= ra < parts,
            0 <= rb < parts,
    ;
}

/// The sample points are distinct, a whole alignment or more apart, exactly where there is a
/// block for each of them.
pub proof fn law_offsets_are_distinct_where_there_is_room(device_size: u64, bins: usize)
    requires
        bins > 1,
    ensures
        ({
            let offsets = planned_offsets(device_size as nat, bins as nat);
            (forall|i: int| 0 <= i < bins - 1 ==> #[trigger] offsets[i] + ALIGNMENT <= offsets[i
                + 1]) <==> max_offset(device_size as nat) >= (bins - 1) * ALIGNMENT
        }),
{
    let size = device_size as nat;
    let offsets = planned_offsets(size, bins as nat);
    let blocks = max_block(size) as int;
    let parts = bins - 1;
    lemma_offset_in_blocks(size, bins as nat, 0);
    if blocks >= parts {
        assert(blocks / parts >= 1) by (nonlinear_arith)
            requires
                blocks >= parts,
                parts > 0,
        ;
        assert forall|i: int| 0 <= i < bins - 1 implies #[trigger] offsets[i] + ALIGNMENT
            <= offsets[i + 1] by {
            lemma_offset_bound(size, bins as nat, i as nat);
            lemma_offset_bound(size, bins as nat, (i + 1) as nat);
            lemma_offset_in_blocks(size, bins as nat, i as nat);
            lemma_offset_in_blocks(size, bins as nat, (i + 1) as nat);
            lemma_block_gap(blocks, parts, i);
        }
    } else {
        div_mod::lemma_basic_div(blocks, parts);
        lemma_offset_bound(size, bins as nat, 0);
        lemma_offset_bound(size, bins as nat, 1);
        lemma_offset_in_blocks(size, bins as nat, 1);
        assert(blocks * 1 == blocks);
        assert(offsets[1] == 0);
        let first: int = 0;
        assert(!(offsets[first] + ALIGNMENT <= offsets[first + 1]));
    }
}

/// Dividing each step between sample points into `factor` steps keeps the old sample points.
pub proof fn law_refining_keeps_sample_points(
    device_size: u64,
    bins: usize,
    finer: usize,
    factor: nat,
    index: int,
)
    requires
        bins > 1,
        factor > 0,
        finer - 1 == (bins - 1) * factor,
        0 <= index < bins,
    ensures
        0 <= index * factor < finer,
        planned_offsets(device_size as nat, finer as nat)[index * factor] == planned_offsets(
            device_size as nat,
            bins as nat,
        )[index],
{
    let size = device_size as nat;
    let blocks = max_block(size) as int;
    let parts = bins - 1;
    let k = factor as int;
    assert(0 <= index * k <= parts * k) by (nonlinear_arith)
        requires
            0 <= index <= parts,
            k > 0,
    ;
    assert(parts * k >= 1) by (nonlinear_arith)
        requires
            parts >= 1,
            k >= 1,
    ;
    lemma_offset_bound(size, bins as nat, index as nat);
    lemma_offset_bound(size, finer as nat, (index * k) as nat);
    lemma_offset_in_blocks(size, bins as nat, index as nat);
    lemma_offset_in_blocks(size, finer as nat, (index * k) as nat);
    mul::lemma_mul_is_associative(blocks, index, k);
    assert(blocks * index >= 0) by (nonlinear_arith)
        requires
            blocks >= 0,
            index >= 0,
    ;
    assert((blocks * index) * k >= 0) by (nonlinear_arith)
        requires
            blocks * index >= 0,
            k > 0,
    ;
    div_mod::lemma_div_denominator((blocks * index) * k, k, parts);
    mul::lemma_mul_is_commutative(parts, k);
    div_mod::lemma_div_by_multiple(blocks * index, k);
}

/// One direct read to issue.
#[derive(Clone, Copy, Debug, PartialEq, Eq)]
pub struct ReadRequest {
    /// Where on the device the read begins.
    pub offset: u64,
    /// How many bytes it asks for.
    pub len: usize,
}

/// The progress of one sample: which read to issue next, and when to stop.
#[derive(Debug)]
pub struct SampleReader {
    /// The size of the device.
    pub device_size: u64,
    /// The offset of the sample point.
    pub offset: u64,
    /// The time budget of the sample.
    pub budget: SampleDuration,
    /// How many bytes behind the sample point can be read in aligned reads.
    pub readable_bytes: u64,
    /// How many bytes have been read so far.
    pub bytes_read: u64,
}

/// How many bytes behind `offset` can be read in aligned reads.
pub open spec fn readable(device_size: nat, offset: nat) -> nat {
    aligned_down(minus(device_size, offset), ALIGNMENT as nat)
}

/// The lesser of two numbers.
pub open spec fn least(a: nat, b: nat) -> nat {
    if a < b {
        a
    } else {
        b
    }
}

impl SampleReader {
    /// What holds of every reader: it has read a whole number of alignments, and no more than
    /// the device holds behind the sample point.
    pub open spec fn wf(self) -> bool {
        &&& self.readable_bytes == readable(self.device_size as nat, self.offset as nat)
        &&& self.bytes_read <= self.readable_bytes
        &&& self.bytes_read % ALIGNMENT == 0
    }

    /// The read that is due after `elapsed` nanoseconds; none once the budget is used up or
    /// everything is read.
    pub open spec fn request(self, elapsed: nat) -> Option<(nat, nat)> {
        if elapsed < self.budget.nanos() && self.bytes_read < self.readable_bytes {
            Some(
                (
                    (self.offset + self.bytes_read) as nat,
                    least(
                        (self.readable_bytes - self.bytes_read) as nat,
                        READ_CHUNK_BYTES as nat,
                    ),
                ),
            )
        } else {
            None
        }
    }

    /// A reader for the sample point at `offset`.
    pub fn new(offset: u64, device_size: u64, budget: SampleDuration) -> (reader: Self)
        ensures
            reader.wf(),
            reader.device_size == device_size,
            reader.offset == offset,
            reader.budget == budget,
            reader.bytes_read == 0,
    {
        let readable_bytes = align_down(device_size.saturating_sub(offset), ALIGNMENT);
        SampleReader { device_size, offset, budget, readable_bytes, bytes_read: 0 }
    }

    /// The size of the buffer that all reads of this sample fit into.
    pub fn buffer_len(&self) -> (len: usize)
        ensures
            len == least(self.readable_bytes as nat, READ_CHUNK_BYTES as nat),
            len <= 0x40_0000,
            len <= self.readable_bytes,
            len == 0x40_0000 || len == self.readable_bytes,
    {
        if self.readable_bytes < READ_CHUNK_BYTES {
            self.readable_bytes as usize
        } else {
            READ_CHUNK_BYTES as usize
        }
    }

    /// The read that is due after `elapsed_nanos`; none once the budget is used up or everything
    /// is read.
    pub fn next_read(&self, elapsed_nanos: u128) -> (request: Option<ReadRequest>)
        requires
            self.wf(),
        ensures
            request is Some <==> self.request(elapsed_nanos as nat) is Some,
            request matches Some(r) ==> self.request(elapsed_nanos as nat) == Some(
                (r.offset as nat, r.len as nat),
            ),
            request is Some <==> elapsed_nanos < self.budget.millis * 1_000_000 && self.offset
                + self.bytes_read + 4096 <= self.device_size,
            request matches Some(r) ==> {
                &&& r.offset == self.offset + self.bytes_read
                &&& r.len % 4096 == 0
                &&& 4096 <= r.len <= 0x40_0000
                &&& r.offset + r.len <= self.device_size
                &&& r.len == 0x40_0000 || self.device_size < r.offset + r.len + 4096
            },
    {
        proof {
            law_reads_go_on_where_the_last_one_ended(*self, elapsed_nanos as nat);
        }
        let budget_nanos: u128 = self.budget.millis as u128 * 1_000_000;
        if elapsed_nanos >= budget_nanos || self.bytes_read >= self.readable_bytes {
            return None;
        }
        proof {
            law_aligned_down(
                minus(self.device_size as nat, self.offset as nat),
                ALIGNMENT as nat,
            );
        }
        let remaining: u64 = self.readable_bytes - self.bytes_read;
        let len: u64 = if remaining < READ_CHUNK_BYTES {
            remaining
        } else {
            READ_CHUNK_BYTES
        };
        Some(ReadRequest { offset: self.offset + self.bytes_read, len: len as usize })
    }

    /// Whether a read of `read` bytes ends off the alignment although more was to come.
    pub open spec fn is_unaligned(self, read: nat) -> bool {
        read % ALIGNMENT as nat != 0 && self.bytes_read + read != self.readable_bytes
    }

    /// Takes note that the due read delivered `read` bytes. Says whether to go on: not after an
    /// empty read. A read that ends off the alignment although more was to come is an error.
    pub fn complete_read(&mut self, read: usize) -> (go_on: Result<bool, RunError>)
        requires
            old(self).wf(),
            old(self).bytes_read + read <= old(self).readable_bytes,
        ensures
            final(self).wf(),
            go_on is Ok <==> read % 4096 == 0,
            go_on is Ok ==> *final(self) == after_reads(*old(self), seq![read as nat]),
            match go_on {
                Ok(more) => {
                    &&& !old(self).is_unaligned(read as nat)
                    &&& more == (read > 0)
                    &&& *final(self) == (SampleReader {
                        bytes_read: (old(self).bytes_read + read) as u64,
                        ..*old(self)
                    })
                },
                Err(error) => {
                    &&& old(self).is_unaligned(read as nat)
                    &&& error == (RunError::UnalignedRead {
                        offset: (old(self).offset + old(self).bytes_read) as u64,
                        read,
                    })
                    &&& *final(self) == *old(self)
                },
            },
    {
        proof {
            law_unaligned_reads_are_refused(*self, read as nat);
            law_aligned_down(
                minus(self.device_size as nat, self.offset as nat),
                ALIGNMENT as nat,
            );
            reveal_with_fuel(after_reads, 2);
            assert(seq![read as nat].drop_last() =~= seq![]);
        }
        if read == 0 {
            return Ok(false);
        }
        let length: u64 = read as u64;
        if length % ALIGNMENT != 0 && self.bytes_read + length != self.readable_bytes {
            return Err(
                RunError::UnalignedRead { offset: self.offset + self.bytes_read, read },
            );
        }
        self.bytes_read = self.bytes_read + length;
        Ok(true)
    }
}

/// A read that is due asks for a whole number of alignments, at least one of them and at most one
/// chunk, fits the buffer, and ends within the aligned part of the device behind the sample point.
/// Its offset is aligned where the sample point is.
pub proof fn law_reads_are_aligned_and_in_bounds(reader: SampleReader, elapsed: nat)
    requires
        reader.wf(),
        reader.request(elapsed) is Some,
    ensures
        ({
            let (offset, len) = reader.request(elapsed)->0;
            &&& len % ALIGNMENT as nat == 0
            &&& ALIGNMENT <= len <= READ_CHUNK_BYTES
            &&& len <= least(reader.readable_bytes as nat, READ_CHUNK_BYTES as nat)
            &&& offset + len <= reader.offset + reader.readable_bytes <= reader.device_size
            &&& reader.offset % ALIGNMENT == 0 ==> offset % ALIGNMENT as nat == 0
        }),
{
    law_aligned_down(minus(reader.device_size as nat, reader.offset as nat), ALIGNMENT as nat);
}

/// A sample stops where the aligned part of the device is read, and when its budget is used up.
pub proof fn law_samples_stop(reader: SampleReader, elapsed: nat)
    requires
        reader.wf(),
    ensures
        reader.request(elapsed) is None <==> reader.bytes_read == reader.readable_bytes || elapsed
            >= reader.budget.nanos(),
{
}

/// The reader after reads that delivered these many bytes each.
pub open spec fn after_reads(reader: SampleReader, reads: Seq<nat>) -> SampleReader
    decreases reads.len(),
{
    if reads.len() == 0 {
        reader
    } else {
        let before = after_reads(reader, reads.drop_last());
        SampleReader { bytes_read: (before.bytes_read + reads.last()) as u64, ..before }
    }
}

/// Whether each read in turn delivered no more than was asked for and was not refused.
pub open spec fn reads_accepted(reader: SampleReader, reads: Seq<nat>) -> bool
    decreases reads.len(),
{
    reads.len() > 0 ==> {
        let before = after_reads(reader, reads.drop_last());
        &&& reads_accepted(reader, reads.drop_last())
        &&& before.bytes_read + reads.last() <= before.readable_bytes
        &&& !before.is_unaligned(reads.last())
    }
}

/// The sum of some numbers.
pub open spec fn sum(numbers: Seq<nat>) -> nat
    decreases numbers.len(),
{
    if numbers.len() == 0 {
        0
    } else {
        sum(numbers.drop_last()) + numbers.last()
    }
}

/// Whatever the reads of a sample deliver, the sample stays within the aligned part of the device
/// behind its sample point, counts exactly the bytes delivered, and keeps its sample point and
/// budget.
pub proof fn law_sample_stays_on_device(reader: SampleReader, reads: Seq<nat>)
    requires
        reader.wf(),
        reads_accepted(reader, reads),
    ensures
        after_reads(reader, reads).wf(),
        after_reads(reader, reads).bytes_read == reader.bytes_read + sum(reads),
        reader.bytes_read + sum(reads) <= reader.readable_bytes,
        after_reads(reader, reads).offset == reader.offset,
        after_reads(reader, reads).device_size == reader.device_size,
        after_reads(reader, reads).readable_bytes == reader.readable_bytes,
        after_reads(reader, reads).budget == reader.budget,
    decreases reads.len(),
{
    law_aligned_down(minus(reader.device_size as nat, reader.offset as nat), ALIGNMENT as nat);
    if reads.len() > 0 {
        law_sample_stays_on_device(reader, reads.drop_last());
    }
}

/// A read is due exactly as long as less than the budget of milliseconds has passed and a whole
/// block of 4 KiB is left behind what was read. It begins where the reads so far ended, and asks
/// for 4 MiB or else for all whole blocks that are left.
pub proof fn law_reads_go_on_where_the_last_one_ended(reader: SampleReader, elapsed: nat)
    requires
        reader.wf(),
    ensures
        ({
            let at = reader.offset + reader.bytes_read;
            match reader.request(elapsed) {
                Some((offset, len)) => {
                    &&& elapsed < reader.budget.millis * 1_000_000
                    &&& offset == at
                    &&& len % 4096 == 0
                    &&& 4096 <= len <= 0x40_0000
                    &&& at + len <= reader.device_size
                    &&& len == 0x40_0000 || reader.device_size < at + len + 4096
                },
                None => elapsed >= reader.budget.millis * 1_000_000 || reader.device_size < at
                    + 4096,
            }
        }),
{
    law_aligned_down(minus(reader.device_size as nat, reader.offset as nat), 4096);
}

/// The reads of a sample are contiguous: after reads that delivered some bytes in all, the next
/// one begins that many bytes behind the sample point.
pub proof fn law_reads_are_contiguous(reader: SampleReader, reads: Seq<nat>, elapsed: nat)
    requires
        reader.wf(),
        reader.bytes_read == 0,
        reads_accepted(reader, reads),
    ensures
        after_reads(reader, reads).bytes_read == sum(reads),
        after_reads(reader, reads).request(elapsed) matches Some((offset, len)) ==> {
            &&& offset == reader.offset + sum(reads)
            &&& offset + len <= reader.device_size
        },
{
    law_sample_stays_on_device(reader, reads);
    law_reads_go_on_where_the_last_one_ended(after_reads(reader, reads), elapsed);
}

/// No two reads of a sample overlap: a later one begins behind all that an earlier one delivered.
pub proof fn law_reads_never_overlap(
    reader: SampleReader,
    reads: Seq<nat>,
    i: int,
    j: int,
    sooner: nat,
    later: nat,
)
    requires
        reader.wf(),
        reader.bytes_read == 0,
        reads_accepted(reader, reads),
        0 <= i < j <= reads.len(),
        after_reads(reader, reads.take(i)).request(sooner) is Some,
        after_reads(reader, reads.take(j)).request(later) is Some,
    ensures
        ({
            let (first, _) = after_reads(reader, reads.take(i)).request(sooner)->0;
            let (second, _) = after_reads(reader, reads.take(j)).request(later)->0;
            first + reads[i] <= second
        }),
{
    lemma_earlier_reads_accepted(reader, reads, i);
    lemma_earlier_reads_accepted(reader, reads, j);
    law_reads_are_contiguous(reader, reads.take(i), sooner);
    law_reads_are_contiguous(reader, reads.take(j), later);
    lemma_sum_grows(reads, i, j);
}

proof fn lemma_earlier_reads_accepted(reader: SampleReader, reads: Seq<nat>, count: int)
    requires
        reads_accepted(reader, reads),
        0 <= count <= reads.len(),
    ensures
        reads_accepted(reader, reads.take(count)),
    decreases reads.len(),
{
    if count == reads.len() {
        assert(reads.take(count) =~= reads);
    } else {
        lemma_earlier_reads_accepted(reader, reads.drop_last(), count);
        assert(reads.drop_last().take(count) =~= reads.take(count));
    }
}

proof fn lemma_sum_grows(numbers: Seq<nat>, i: int, j: int)
    requires
        0 <= i < j <= numbers.len(),
    ensures
        sum(numbers.take(i)) + numbers[i] <= sum(numbers.take(j)),
    decreases j,
{
    assert(numbers.take(j).drop_last() =~= numbers.take(j - 1));
    assert(numbers.take(j).last() == numbers[j - 1]);
    if i < j - 1 {
        lemma_sum_grows(numbers, i, j - 1);
    }
}

/// A read that delivers no more than is left is refused exactly if it delivers no whole number
/// of blocks of 4 KiB.
pub proof fn law_unaligned_reads_are_refused(reader: SampleReader, read: nat)
    requires
        reader.wf(),
        reader.bytes_read + read <= reader.readable_bytes,
    ensures
        reader.is_unaligned(read) <==> read % 4096 != 0,
{
    law_aligned_down(minus(reader.device_size as nat, reader.offset as nat), 4096);
}

/// A sample whose reads all deliver what they ask for ends, if time permits, less than one block
/// of 4 KiB before the end of the device.
pub proof fn law_samples_can_reach_the_end_of_the_device(
    reader: SampleReader,
    reads: Seq<nat>,
    elapsed: nat,
)
    requires
        reader.wf(),
        reader.bytes_read == 0,
        reader.offset <= reader.device_size,
        reads_accepted(reader, reads),
        elapsed < reader.budget.millis * 1_000_000,
        after_reads(reader, reads).request(elapsed) is None,
    ensures
        reader.offset + sum(reads) <= reader.device_size < reader.offset + sum(reads) + 4096,
{
    law_sample_stays_on_device(reader, reads);
    law_reads_go_on_where_the_last_one_ended(after_reads(reader, reads), elapsed);
    law_aligned_down(minus(reader.device_size as nat, reader.offset as nat), 4096);
}

/// Every read of every planned sample is aligned in offset and length and ends on the device.
pub proof fn law_planned_reads_are_aligned(
    device_size: u64,
    bins: usize,
    index: int,
    reader: SampleReader,
    elapsed: nat,
)
    requires
        0 <= index < planned_offsets(device_size as nat, bins as nat).len(),
        reader.wf(),
        reader.device_size == device_size,
        reader.offset == planned_offsets(device_size as nat, bins as nat)[index],
        reader.request(elapsed) is Some,
    ensures
        ({
            let (offset, len) = reader.request(elapsed)->0;
            &&& offset % ALIGNMENT as nat == 0
            &&& len % ALIGNMENT as nat == 0
            &&& offset + len <= device_size
        }),
{
    law_offsets_are_aligned(device_size, bins, index);
    law_reads_are_aligned_and_in_bounds(reader, elapsed);
}

/// On a device that is large enough to be sampled, every planned sample has a first read to issue
/// as long as its budget is not used up.
pub proof fn law_planned_samples_can_read(
    device_size: u64,
    bins: usize,
    index: int,
    reader: SampleReader,
    elapsed: nat,
)
    requires
        device_size >= ALIGNMENT,
        0 <= index < planned_offsets(device_size as nat, bins as nat).len(),
        reader.wf(),
        reader.device_size == device_size,
        reader.offset == planned_offsets(device_size as nat, bins as nat)[index],
        reader.bytes_read == 0,
    ensures
        reader.request(elapsed) is Some <==> elapsed < reader.budget.nanos(),
{
    law_offsets_leave_room(device_size, bins, index);
    law_aligned_down(minus(reader.device_size as nat, reader.offset as nat), ALIGNMENT as nat);
}

} // verus!
