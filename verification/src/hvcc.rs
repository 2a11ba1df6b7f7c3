//! HEVC decoder configuration, the `hvcC` box.
//!
//! Unlike AV1, HEVC keeps the decoder's startup state nowhere but here: the
//! parameter sets are part of the record.
use vstd::prelude::*;

use crate::bytes;
use crate::bytes::{truncate_u16, truncate_u32, write_bytes, write_u16, write_u32};
use crate::fourcc::HVCC;
use crate::framing;
use crate::framing::{begin_box, end_box};

verus! {

/// One parameter set: a NAL unit, and what the record says of its kind.
#[derive(Clone, Debug, PartialEq, Eq)]
pub struct HvcCParameterSet {
    /// 32 for a VPS, 33 for an SPS, 34 for a PPS.
    pub nal_unit_type: u8,
    /// Whether the record holds every unit of this type.
    pub array_completeness: bool,
    /// The NAL unit.
    pub data: Vec<u8>,
}

/// HEVC decoder configuration.
#[derive(Clone, Debug, PartialEq, Eq)]
pub struct HvcCBox {
    pub general_profile_space: u8,
    pub general_tier_flag: bool,
    pub general_profile_idc: u8,
    pub general_profile_compatibility_flags: u32,
    /// 48 bits; those above are not written.
    pub general_constraint_indicator_flags: u64,
    pub general_level_idc: u8,
    pub min_spatial_segmentation_idc: u16,
    pub parallelism_type: u8,
    /// 0 is monochrome; 1, 2 and 3 are 4:2:0, 4:2:2 and 4:4:4.
    pub chroma_format_idc: u8,
    pub bit_depth_luma: u8,
    pub bit_depth_chroma: u8,
    pub avg_frame_rate: u16,
    pub constant_frame_rate: u8,
    pub num_temporal_layers: u8,
    pub temporal_id_nested: bool,
    /// Bytes of the length that precedes each NAL unit of a sample.
    pub nal_length_size: u8,
    pub parameter_sets: Vec<HvcCParameterSet>,
}

/// What an [`HvcCParameterSet`] holds.
pub struct HvcCParameterSetView {
    pub nal_unit_type: u8,
    pub array_completeness: bool,
    pub data: Seq<u8>,
}

/// What an [`HvcCBox`] holds.
pub struct HvcCBoxView {
    pub general_profile_space: u8,
    pub general_tier_flag: bool,
    pub general_profile_idc: u8,
    pub general_profile_compatibility_flags: u32,
    pub general_constraint_indicator_flags: u64,
    pub general_level_idc: u8,
    pub min_spatial_segmentation_idc: u16,
    pub parallelism_type: u8,
    pub chroma_format_idc: u8,
    pub bit_depth_luma: u8,
    pub bit_depth_chroma: u8,
    pub avg_frame_rate: u16,
    pub constant_frame_rate: u8,
    pub num_temporal_layers: u8,
    pub temporal_id_nested: bool,
    pub nal_length_size: u8,
    pub parameter_sets: Seq<HvcCParameterSetView>,
}

impl View for HvcCParameterSet {
    type V = HvcCParameterSetView;

    open spec fn view(&self) -> HvcCParameterSetView {
        HvcCParameterSetView {
            nal_unit_type: self.nal_unit_type,
            array_completeness: self.array_completeness,
            data: self.data@,
        }
    }
}

impl View for HvcCBox {
    type V = HvcCBoxView;

    open spec fn view(&self) -> HvcCBoxView {
        HvcCBoxView {
            general_profile_space: self.general_profile_space,
            general_tier_flag: self.general_tier_flag,
            general_profile_idc: self.general_profile_idc,
            general_profile_compatibility_flags: self.general_profile_compatibility_flags,
            general_constraint_indicator_flags: self.general_constraint_indicator_flags,
            general_level_idc: self.general_level_idc,
            min_spatial_segmentation_idc: self.min_spatial_segmentation_idc,
            parallelism_type: self.parallelism_type,
            chroma_format_idc: self.chroma_format_idc,
            bit_depth_luma: self.bit_depth_luma,
            bit_depth_chroma: self.bit_depth_chroma,
            avg_frame_rate: self.avg_frame_rate,
            constant_frame_rate: self.constant_frame_rate,
            num_temporal_layers: self.num_temporal_layers,
            temporal_id_nested: self.temporal_id_nested,
            nal_length_size: self.nal_length_size,
            parameter_sets: set_views(self.parameter_sets@),
        }
    }
}

/// What each of `sets` holds.
pub open spec fn set_views(sets: Seq<HvcCParameterSet>) -> Seq<HvcCParameterSetView> {
    sets.map_values(|set: HvcCParameterSet| set@)
}

/// Main profile at level 2.0, 8-bit 4:2:0, four-byte lengths, no parameter sets.
pub open spec fn default_hvcc() -> HvcCBoxView {
    HvcCBoxView {
        general_profile_space: 0,
        general_tier_flag: false,
        general_profile_idc: 1,
        general_profile_compatibility_flags: 0,
        general_constraint_indicator_flags: 0,
        general_level_idc: 60,
        min_spatial_segmentation_idc: 0,
        parallelism_type: 0,
        chroma_format_idc: 1,
        bit_depth_luma: 8,
        bit_depth_chroma: 8,
        avg_frame_rate: 0,
        constant_frame_rate: 0,
        num_temporal_layers: 1,
        temporal_id_nested: true,
        nal_length_size: 4,
        parameter_sets: Seq::empty(),
    }
}

impl Default for HvcCBox {
    /// Main profile at level 2.0, 8-bit 4:2:0, four-byte lengths, no parameter sets.
    fn default() -> (config: Self)
        ensures
            config@ == default_hvcc(),
    {
        let config = HvcCBox {
            general_profile_space: 0,
            general_tier_flag: false,
            general_profile_idc: 1,
            general_profile_compatibility_flags: 0,
            general_constraint_indicator_flags: 0,
            general_level_idc: 60,
            min_spatial_segmentation_idc: 0,
            parallelism_type: 0,
            chroma_format_idc: 1,
            bit_depth_luma: 8,
            bit_depth_chroma: 8,
            avg_frame_rate: 0,
            constant_frame_rate: 0,
            num_temporal_layers: 1,
            temporal_id_nested: true,
            nal_length_size: 4,
            parameter_sets: Vec::new(),
        };
        assert(config@.parameter_sets =~= Seq::empty());
        config
    }
}

// ─── Model ───────────────────────────────────────────────────────────

/// A bit depth as the record states it: the bits beyond eight, in three bits.
#[verifier::opaque]
pub open spec fn depth_minus_eight(depth: u8) -> int {
    if depth >= 8 {
        (depth - 8) % 8
    } else {
        0
    }
}

/// A length size as the record states it: less one, in two bits.
pub open spec fn length_size_minus_one(size: u8) -> int {
    if size >= 1 {
        (size - 1) % 4
    } else {
        0
    }
}

/// The profile space, the tier and the profile.
#[verifier::opaque]
pub open spec fn profile_byte(config: HvcCBoxView) -> u8 {
    (config.general_profile_space % 4 * 0x40 + (if config.general_tier_flag {
        0x20int
    } else {
        0
    }) + config.general_profile_idc % 0x20) as u8
}

/// The frame rate's constancy, the temporal layers and the length size.
#[verifier::opaque]
pub open spec fn layers_byte(config: HvcCBoxView) -> u8 {
    (config.constant_frame_rate % 4 * 0x40 + config.num_temporal_layers % 8 * 8 + (
    if config.temporal_id_nested {
        4int
    } else {
        0
    }) + length_size_minus_one(config.nal_length_size)) as u8
}

/// Everything in the record that precedes the parameter sets.
pub open spec fn hvcc_head(config: HvcCBoxView) -> Seq<u8> {
    seq![1u8, profile_byte(config)] + bytes::be32(config.general_profile_compatibility_flags)
        + bytes::be16(bytes::low16(config.general_constraint_indicator_flags as int / 0x1_0000_0000))
        + bytes::be32(bytes::low32(config.general_constraint_indicator_flags as int)) + seq![
        config.general_level_idc,
    ] + bytes::be16((0xf000 + config.min_spatial_segmentation_idc % 0x1000) as u16) + seq![
        (0xfc + config.parallelism_type % 4) as u8,
        (0xfc + config.chroma_format_idc % 4) as u8,
        (0xf8 + depth_minus_eight(config.bit_depth_luma)) as u8,
        (0xf8 + depth_minus_eight(config.bit_depth_chroma)) as u8,
    ] + bytes::be16(config.avg_frame_rate) + seq![layers_byte(config)]
}

/// Whether two parameter sets stand in the same array.
pub open spec fn same_array(a: HvcCParameterSetView, b: HvcCParameterSetView) -> bool {
    a.nal_unit_type == b.nal_unit_type && a.array_completeness == b.array_completeness
}

/// How many sets at the front of `sets` stand in the same array as `first`.
pub open spec fn leading(
    sets: Seq<HvcCParameterSetView>,
    first: HvcCParameterSetView,
) -> nat
    decreases sets.len(),
{
    if sets.len() > 0 && same_array(sets[0], first) {
        1 + leading(sets.drop_first(), first)
    } else {
        0
    }
}

/// A NAL unit preceded by its length.
pub open spec fn nal_unit(set: HvcCParameterSetView) -> Seq<u8> {
    bytes::be16(bytes::low16(set.data.len() as int)) + set.data
}

/// One array: its type, its number of units, and the units.
pub open spec fn set_array(run: Seq<HvcCParameterSetView>) -> Seq<u8> {
    seq![
        ((if run[0].array_completeness {
            0x80int
        } else {
            0
        }) + run[0].nal_unit_type % 0x40) as u8,
    ] + bytes::be16(bytes::low16(run.len() as int)) + bytes::concat(
        run.map_values(|set: HvcCParameterSetView| nal_unit(set)),
    )
}

/// The number of sets in the first array of `sets`.
pub open spec fn first_run(sets: Seq<HvcCParameterSetView>) -> nat {
    leading(sets, sets[0])
}

/// The first array of `sets` holds at least one of them and no more than all.
pub proof fn lemma_leading_bound(sets: Seq<HvcCParameterSetView>, first: HvcCParameterSetView)
    ensures
        leading(sets, first) <= sets.len(),
        sets.len() > 0 && same_array(sets[0], first) ==> leading(sets, first) >= 1,
    decreases sets.len(),
{
    if sets.len() > 0 && same_array(sets[0], first) {
        lemma_leading_bound(sets.drop_first(), first);
    }
}

/// The arrays of `sets`: each run of sets of one type stands in one array, in
/// the order given.
pub open spec fn set_arrays(sets: Seq<HvcCParameterSetView>) -> Seq<u8>
    decreases sets.len(),
{
    if sets.len() == 0 {
        Seq::empty()
    } else {
        proof {
            lemma_leading_bound(sets, sets[0]);
        }
        set_array(sets.take(first_run(sets) as int)) + set_arrays(
            sets.skip(first_run(sets) as int),
        )
    }
}

/// How many arrays `sets` make.
pub open spec fn array_count(sets: Seq<HvcCParameterSetView>) -> nat
    decreases sets.len(),
{
    if sets.len() == 0 {
        0
    } else {
        proof {
            lemma_leading_bound(sets, sets[0]);
        }
        1 + array_count(sets.skip(first_run(sets) as int))
    }
}

/// The `hvcC` box.
#[verifier::opaque]
pub open spec fn hvcc_box(config: HvcCBoxView) -> Seq<u8> {
    framing::mp4_box(
        HVCC,
        hvcc_head(config) + seq![(array_count(config.parameter_sets) % 0x100) as u8]
            + set_arrays(config.parameter_sets),
    )
}

// ─── Writers ─────────────────────────────────────────────────────────

/// The end of the run of sets that starts at `start`.
fn run_end(sets: &Vec<HvcCParameterSet>, start: usize) -> (end: usize)
    requires
        start < sets@.len(),
    ensures
        end == start + first_run(set_views(sets@).skip(start as int)),
        start < end <= sets@.len(),
{
    let ghost all = set_views(sets@);
    let ghost first = all[start as int];
    let mut end: usize = start;
    while end < sets.len() && sets[end].nal_unit_type == sets[start].nal_unit_type
        && sets[end].array_completeness == sets[start].array_completeness
        invariant
            start <= end <= sets@.len(),
            start < sets@.len(),
            all == set_views(sets@),
            first == all[start as int],
            end - start + leading(all.skip(end as int), first) == leading(
                all.skip(start as int),
                first,
            ),
        decreases sets@.len() - end,
    {
        assert(all.skip(end as int).drop_first() =~= all.skip(end + 1));
        assert(all.skip(end as int)[0] == sets@[end as int]@);
        end += 1;
    }
    assert(all.skip(start as int)[0] == first);
    proof {
        lemma_leading_bound(all.skip(start as int), first);
        if end < sets@.len() {
            assert(all.skip(end as int)[0] == sets@[end as int]@);
        }
    }
    end
}

/// The number of arrays that the sets make.
fn count_arrays(sets: &Vec<HvcCParameterSet>) -> (n: usize)
    ensures
        n == array_count(set_views(sets@)),
{
    let ghost all = set_views(sets@);
    let mut n: usize = 0;
    let mut i: usize = 0;
    assert(all.skip(0) =~= all);
    while i < sets.len()
        invariant
            n <= i <= sets@.len(),
            all == set_views(sets@),
            n + array_count(all.skip(i as int)) == array_count(all),
        decreases sets@.len() - i,
    {
        let end: usize = run_end(sets, i);
        assert(all.skip(i as int).skip(end - i) =~= all.skip(end as int));
        n += 1;
        i = end;
    }
    n
}

/// Append the array of the sets from `start` to `end`.
fn write_array(out: &mut Vec<u8>, sets: &Vec<HvcCParameterSet>, start: usize, end: usize)
    requires
        start < end <= sets@.len(),
    ensures
        final(out)@ == old(out)@ + set_array(
            set_views(sets@).subrange(start as int, end as int),
        ),
{
    broadcast use bytes::group_append;

    let ghost before = out@;
    let ghost run = set_views(sets@).subrange(start as int, end as int);
    let ghost units = run.map_values(|set: HvcCParameterSetView| nal_unit(set));
    let kind: u8 = (if sets[start].array_completeness {
        0x80u8
    } else {
        0
    }) + sets[start].nal_unit_type % 0x40;
    write_bytes(out, &[kind]);
    assert([kind]@ =~= seq![kind]);
    write_u16(out, truncate_u16((end - start) as u64));
    let ghost head = out@;
    let mut i: usize = start;
    assert(units.take(0) =~= Seq::empty());
    while i < end
        invariant
            start <= i <= end <= sets@.len(),
            run == set_views(sets@).subrange(start as int, end as int),
            units == run.map_values(|set: HvcCParameterSetView| nal_unit(set)),
            out@ == head + bytes::concat(units.take(i - start)),
        decreases end - i,
    {
        broadcast use bytes::group_append;

        assert(units.take(i - start + 1).drop_last() =~= units.take(i - start));
        assert(units[i - start] == nal_unit(sets@[i as int]@));
        write_u16(out, truncate_u16(sets[i].data.len() as u64));
        write_bytes(out, &sets[i].data);
        i += 1;
    }
    assert(units.take(end - start) =~= units);
}

impl HvcCBox {
    /// Append everything in the record that precedes the parameter sets.
    fn write_head(&self, out: &mut Vec<u8>)
        ensures
            final(out)@ == old(out)@ + hvcc_head(self@),
    {
        reveal(depth_minus_eight);
        reveal(profile_byte);
        reveal(layers_byte);
        broadcast use bytes::group_append;

        let profile: u8 = self.general_profile_space % 4 * 0x40 + (if self.general_tier_flag {
            0x20
        } else {
            0
        }) + self.general_profile_idc % 0x20;
        let luma: u8 = if self.bit_depth_luma >= 8 {
            (self.bit_depth_luma - 8) % 8
        } else {
            0
        };
        let chroma: u8 = if self.bit_depth_chroma >= 8 {
            (self.bit_depth_chroma - 8) % 8
        } else {
            0
        };
        let length_size: u8 = if self.nal_length_size >= 1 {
            (self.nal_length_size - 1) % 4
        } else {
            0
        };
        let layers: u8 = self.constant_frame_rate % 4 * 0x40 + self.num_temporal_layers % 8 * 8 + (
        if self.temporal_id_nested {
            4
        } else {
            0
        }) + length_size;
        let formats: [u8; 4] = [
            0xfc + self.parallelism_type % 4,
            0xfc + self.chroma_format_idc % 4,
            0xf8 + luma,
            0xf8 + chroma,
        ];

        write_bytes(out, &[1, profile]);
        write_u32(out, self.general_profile_compatibility_flags);
        write_u16(out, truncate_u16(self.general_constraint_indicator_flags / 0x1_0000_0000));
        write_u32(out, truncate_u32(self.general_constraint_indicator_flags));
        write_bytes(out, &[self.general_level_idc]);
        write_u16(out, 0xf000 + self.min_spatial_segmentation_idc % 0x1000);
        write_bytes(out, &formats);
        write_u16(out, self.avg_frame_rate);
        write_bytes(out, &[layers]);
        assert([1u8, profile]@ =~= seq![1u8, profile_byte(self@)]);
        assert([self.general_level_idc]@ =~= seq![self.general_level_idc]);
        assert(formats@ =~= seq![
            (0xfc + self.parallelism_type % 4) as u8,
            (0xfc + self.chroma_format_idc % 4) as u8,
            (0xf8 + depth_minus_eight(self.bit_depth_luma)) as u8,
            (0xf8 + depth_minus_eight(self.bit_depth_chroma)) as u8,
        ]);
        assert([layers]@ =~= seq![layers_byte(self@)]);
    }

    /// Append an `hvcC` box.
    pub fn write(&self, out: &mut Vec<u8>)
        ensures
            final(out)@ == old(out)@ + hvcc_box(self@),
    {
        reveal(hvcc_box);
        broadcast use framing::group_framing;

        let ghost all = set_views(self.parameter_sets@);
        let pos: usize = begin_box(out, HVCC);
        self.write_head(out);
        let count: u8 = (count_arrays(&self.parameter_sets) % 0x100) as u8;
        write_bytes(out, &[count]);
        assert([count]@ =~= seq![count]);
        let ghost head = out@;
        let mut i: usize = 0;
        assert(all.skip(0) =~= all);
        while i < self.parameter_sets.len()
            invariant
                i <= self.parameter_sets@.len(),
                all == set_views(self.parameter_sets@),
                out@ + set_arrays(all.skip(i as int)) == head + set_arrays(all),
            decreases self.parameter_sets@.len() - i,
        {
            broadcast use bytes::group_append;

            let end: usize = run_end(&self.parameter_sets, i);
            assert(all.skip(i as int).skip(end - i) =~= all.skip(end as int));
            assert(all.skip(i as int).take(end - i) =~= all.subrange(i as int, end as int));
            write_array(out, &self.parameter_sets, i, end);
            i = end;
        }
        assert(all.skip(i as int) =~= Seq::empty());
        end_box(out, pos);
    }
}

} // verus!
