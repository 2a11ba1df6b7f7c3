//! The HEVC configuration record.
use vstd::prelude::*;

use crate::bytes;
use crate::framing;
use crate::hvcc;
use crate::hvcc::{HvcCBoxView, HvcCParameterSetView};
use crate::navigation;
use crate::reader;

verus! {

/// The NAL units of some parameter sets.
pub open spec fn data_of(sets: Seq<HvcCParameterSetView>) -> Seq<Seq<u8>> {
    sets.map_values(|set: HvcCParameterSetView| set.data)
}

/// Each of some parameter sets, preceded by its length.
pub open spec fn units_of(sets: Seq<HvcCParameterSetView>) -> Seq<Seq<u8>> {
    sets.map_values(|set: HvcCParameterSetView| hvcc::nal_unit(set))
}

/// Whether 16 bits can state the length of every unit, and six bits its type.
pub open spec fn units_fit(sets: Seq<HvcCParameterSetView>) -> bool {
    forall|i: int|
        0 <= i < sets.len() ==> (#[trigger] sets[i]).data.len() <= u16::MAX
            && sets[i].nal_unit_type < 0x40
}

/// Whether 16 bits can state the number of units of every array.
pub open spec fn arrays_fit(sets: Seq<HvcCParameterSetView>) -> bool
    decreases sets.len(),
{
    if sets.len() == 0 {
        true
    } else {
        proof {
            hvcc::lemma_leading_bound(sets, sets[0]);
        }
        hvcc::first_run(sets) <= u16::MAX && arrays_fit(sets.skip(hvcc::first_run(sets) as int))
    }
}

/// The sets at the front that were counted stand in the same array.
proof fn lemma_leading(sets: Seq<HvcCParameterSetView>, first: HvcCParameterSetView)
    ensures
        hvcc::leading(sets, first) <= sets.len(),
        forall|i: int|
            0 <= i < hvcc::leading(sets, first) ==> hvcc::same_array(#[trigger] sets[i], first),
    decreases sets.len(),
{
    if sets.len() > 0 && hvcc::same_array(sets[0], first) {
        let later = sets.drop_first();
        lemma_leading(later, first);
        assert forall|i: int| 0 <= i < hvcc::leading(sets, first) implies hvcc::same_array(
            #[trigger] sets[i],
            first,
        ) by {
            if i > 0 {
                assert(sets[i] == later[i - 1]);
            }
        }
    }
}

/// NAL units read back, whatever follows them.
proof fn lemma_units(run: Seq<HvcCParameterSetView>, rest: Seq<u8>)
    requires
        units_fit(run),
    ensures
        reader::units(bytes::concat(units_of(run)) + rest, run.len()) == Some(
            (data_of(run), rest),
        ),
    decreases run.len(),
{
    broadcast use bytes::group_append;

    let all = bytes::concat(units_of(run)) + rest;
    if run.len() == 0 {
        assert(all =~= rest);
        assert(data_of(run) =~= Seq::empty());
    } else {
        let later = run.skip(1);
        let data = run[0].data;
        let nothing = Seq::<u8>::empty();
        let after = bytes::concat(units_of(later)) + rest;
        let len = bytes::low16(data.len() as int);
        assert(units_fit(later)) by {
            assert forall|i: int| 0 <= i < later.len() implies (#[trigger] later[i]).data.len()
                <= u16::MAX && later[i].nal_unit_type < 0x40 by {
                assert(later[i] == run[i + 1]);
            }
        }
        lemma_units(later, rest);
        let first = seq![hvcc::nal_unit(run[0])];
        assert(units_of(run) =~= first + units_of(later));
        bytes::lemma_concat_add(first, units_of(later));
        assert(bytes::concat(first.drop_last()) =~= nothing);
        assert(bytes::concat(first) =~= hvcc::nal_unit(run[0]));
        assert(all =~= nothing + (bytes::be16(len) + (data + after)));
        bytes::lemma_u16_at(nothing, len, data + after);
        assert(all.skip(2 + data.len() as int) =~= after);
        assert(all.subrange(2, 2 + data.len() as int) =~= data);
        assert(data_of(run) =~= seq![data] + data_of(later));
    }
}

/// Arrays read back as the sets that they were made of.
#[verifier::rlimit(30)]
proof fn lemma_sets(sets: Seq<HvcCParameterSetView>)
    requires
        units_fit(sets),
        arrays_fit(sets),
    ensures
        reader::sets(hvcc::set_arrays(sets), hvcc::array_count(sets)) == Some(sets),
    decreases sets.len(),
{
    broadcast use bytes::group_append;

    if sets.len() == 0 {
        assert(sets =~= Seq::empty());
    } else {
        let n = hvcc::first_run(sets);
        hvcc::lemma_leading_bound(sets, sets[0]);
        lemma_leading(sets, sets[0]);
        let run = sets.take(n as int);
        let later = sets.skip(n as int);
        assert(units_fit(run) && units_fit(later)) by {
            assert forall|i: int| 0 <= i < run.len() implies (#[trigger] run[i]).data.len()
                <= u16::MAX && run[i].nal_unit_type < 0x40 by {
                assert(run[i] == sets[i]);
            }
            assert forall|i: int| 0 <= i < later.len() implies (#[trigger] later[i]).data.len()
                <= u16::MAX && later[i].nal_unit_type < 0x40 by {
                assert(later[i] == sets[i + n]);
            }
        }
        let rest = hvcc::set_arrays(later);
        let all = hvcc::set_arrays(sets);
        lemma_sets(later);
        lemma_units(run, rest);
        let kind = ((if run[0].array_completeness {
            0x80int
        } else {
            0
        }) + run[0].nal_unit_type % 0x40) as u8;
        let count = bytes::low16(run.len() as int);
        let units = bytes::concat(units_of(run));
        assert(all =~= seq![kind] + (bytes::be16(count) + (units + rest)));
        bytes::lemma_u16_at(seq![kind], count, units + rest);
        assert(all.skip(3) =~= units + rest);
        let read = data_of(run).map_values(
            |data: Seq<u8>|
                HvcCParameterSetView {
                    nal_unit_type: all[0] % 0x40,
                    array_completeness: all[0] >= 0x80,
                    data,
                },
        );
        assert forall|i: int| 0 <= i < run.len() implies read[i] == run[i] by {
            assert(run[i] == sets[i]);
            assert(hvcc::same_array(sets[i], sets[0]));
        }
        assert(read =~= run);
        assert(sets =~= run + later);
    }
}

/// The parts of a record.
proof fn lemma_record(config: HvcCBoxView)
    ensures
        ({
            let record = navigation::payload(hvcc::hvcc_box(config));
            &&& hvcc::hvcc_head(config).len() == 22
            &&& record == hvcc::hvcc_head(config) + (seq![
                (hvcc::array_count(config.parameter_sets) % 0x100) as u8,
            ] + hvcc::set_arrays(config.parameter_sets))
        }),
{
    broadcast use {framing::group_framing, navigation::lemma_payload};

    reveal(hvcc::hvcc_box);
}

/// The parameter sets read back from the record, which is the only place that a
/// decoder has them from: each with its type, and in their order.
pub proof fn law_parameter_sets_read_back(config: HvcCBoxView)
    requires
        units_fit(config.parameter_sets),
        arrays_fit(config.parameter_sets),
        hvcc::array_count(config.parameter_sets) <= u8::MAX,
    ensures
        reader::parameter_sets(navigation::payload(hvcc::hvcc_box(config))) == Some(
            config.parameter_sets,
        ),
{
    let record = navigation::payload(hvcc::hvcc_box(config));
    lemma_record(config);
    lemma_sets(config.parameter_sets);
    assert(record.skip(23) =~= hvcc::set_arrays(config.parameter_sets));
}

/// Where each field of the record stands.
proof fn lemma_record_fields(config: HvcCBoxView)
    ensures
        ({
            let record = navigation::payload(hvcc::hvcc_box(config));
            let flags = config.general_constraint_indicator_flags as int;
            &&& record[0] == 1
            &&& record[1] == hvcc::profile_byte(config)
            &&& bytes::u32_at(record, 2) == config.general_profile_compatibility_flags
            &&& bytes::u16_at(record, 6) == bytes::low16(flags / 0x1_0000_0000)
            &&& bytes::u32_at(record, 8) == bytes::low32(flags)
            &&& record[12] == config.general_level_idc
            &&& bytes::u16_at(record, 13) == 0xf000 + config.min_spatial_segmentation_idc % 0x1000
            &&& record[15] == 0xfc + config.parallelism_type % 4
            &&& record[16] == 0xfc + config.chroma_format_idc % 4
            &&& record[17] == 0xf8 + hvcc::depth_minus_eight(config.bit_depth_luma)
            &&& record[18] == 0xf8 + hvcc::depth_minus_eight(config.bit_depth_chroma)
            &&& bytes::u16_at(record, 19) == config.avg_frame_rate
            &&& record[21] == hvcc::layers_byte(config)
        }),
{
    reveal(hvcc::depth_minus_eight);
    broadcast use bytes::group_append;

    let record = navigation::payload(hvcc::hvcc_box(config));
    lemma_record(config);
    let tail = seq![(hvcc::array_count(config.parameter_sets) % 0x100) as u8] + hvcc::set_arrays(
        config.parameter_sets,
    );
    let high = bytes::low16(config.general_constraint_indicator_flags as int / 0x1_0000_0000);
    let low = bytes::low32(config.general_constraint_indicator_flags as int);
    let segmentation = (0xf000 + config.min_spatial_segmentation_idc % 0x1000) as u16;
    let start = seq![1u8, hvcc::profile_byte(config)];
    let level = seq![config.general_level_idc];
    let formats = seq![
        (0xfc + config.parallelism_type % 4) as u8,
        (0xfc + config.chroma_format_idc % 4) as u8,
        (0xf8 + hvcc::depth_minus_eight(config.bit_depth_luma)) as u8,
        (0xf8 + hvcc::depth_minus_eight(config.bit_depth_chroma)) as u8,
    ];
    let layers = seq![hvcc::layers_byte(config)];
    let from_rate = bytes::be16(config.avg_frame_rate) + (layers + tail);
    let from_segmentation = bytes::be16(segmentation) + (formats + from_rate);
    let from_low = bytes::be32(low) + (level + from_segmentation);
    let from_high = bytes::be16(high) + from_low;
    let from_compatibility = bytes::be32(config.general_profile_compatibility_flags) + from_high;
    assert(record == start + from_compatibility);
    bytes::lemma_u32_at(start, config.general_profile_compatibility_flags, from_high);
    let before_high = start + bytes::be32(config.general_profile_compatibility_flags);
    assert(record == before_high + from_high);
    bytes::lemma_u16_at(before_high, high, from_low);
    let before_low = before_high + bytes::be16(high);
    assert(record == before_low + from_low);
    bytes::lemma_u32_at(before_low, low, level + from_segmentation);
    let before_segmentation = before_low + bytes::be32(low) + level;
    assert(record == before_segmentation + from_segmentation);
    bytes::lemma_u16_at(before_segmentation, segmentation, formats + from_rate);
    let before_rate = before_segmentation + bytes::be16(segmentation) + formats;
    assert(record == before_rate + from_rate);
    bytes::lemma_u16_at(before_rate, config.avg_frame_rate, layers + tail);
    assert(record[12] == level[0]);
    assert(record[15] == formats[0] && record[16] == formats[1]);
    assert(record[17] == formats[2] && record[18] == formats[3]);
    assert(record[21] == layers[0]);
}

/// Two bits, one bit and five bits read back from the byte that they make.
proof fn lemma_profile_byte(config: HvcCBoxView)
    requires
        config.general_profile_space < 4,
        config.general_profile_idc < 32,
    ensures
        hvcc::profile_byte(config) / 0x40 == config.general_profile_space,
        hvcc::profile_byte(config) / 0x20 % 2 == 1 <==> config.general_tier_flag,
        hvcc::profile_byte(config) % 0x20 == config.general_profile_idc,
{
    reveal(hvcc::profile_byte);
    let byte = hvcc::profile_byte(config);
    let space = config.general_profile_space;
    let tier: u8 = if config.general_tier_flag {
        1
    } else {
        0
    };
    let profile = config.general_profile_idc;
    assert(byte == space * 0x40 + tier * 0x20 + profile);
    assert(byte / 0x40 == space && byte / 0x20 % 2 == tier && byte % 0x20 == profile)
        by (bit_vector)
        requires
            byte == space * 0x40 + tier * 0x20 + profile,
            space < 4,
            tier < 2,
            profile < 0x20,
    ;
}

/// Two bits, three bits, one bit and two bits read back from the byte that they make.
proof fn lemma_layers_byte(config: HvcCBoxView)
    requires
        config.constant_frame_rate < 4,
        config.num_temporal_layers < 8,
        1 <= config.nal_length_size <= 4,
    ensures
        hvcc::layers_byte(config) / 0x40 == config.constant_frame_rate,
        hvcc::layers_byte(config) / 8 % 8 == config.num_temporal_layers,
        hvcc::layers_byte(config) / 4 % 2 == 1 <==> config.temporal_id_nested,
        hvcc::layers_byte(config) % 4 + 1 == config.nal_length_size,
{
    reveal(hvcc::layers_byte);
    let byte = hvcc::layers_byte(config);
    let rate = config.constant_frame_rate;
    let layers = config.num_temporal_layers;
    let nested: u8 = if config.temporal_id_nested {
        1
    } else {
        0
    };
    let size = (config.nal_length_size - 1) as u8;
    assert(byte == rate * 0x40 + layers * 8 + nested * 4 + size);
    assert(byte / 0x40 == rate && byte / 8 % 8 == layers && byte / 4 % 2 == nested && byte % 4
        == size) by (bit_vector)
        requires
            byte == rate * 0x40 + layers * 8 + nested * 4 + size,
            rate < 4,
            layers < 8,
            nested < 2,
            size < 4,
    ;
}

/// A bit depth of eight to fifteen reads back from its three bits.
proof fn lemma_depth(depth: u8)
    requires
        8 <= depth < 16,
    ensures
        hvcc::depth_minus_eight(depth) == depth - 8,
{
    reveal(hvcc::depth_minus_eight);
}

/// 48 bits read back from the fields that hold the high 16 and the low 32 of them.
proof fn lemma_constraint_flags(flags: u64)
    requires
        flags < 0x1_0000_0000_0000,
    ensures
        bytes::low16(flags as int / 0x1_0000_0000) * 0x1_0000_0000 + bytes::low32(flags as int)
            == flags,
{
}

/// Every other field of the record within its bits reads back.
pub proof fn law_hevc_config_reads_back(config: HvcCBoxView)
    requires
        config.general_profile_space < 4,
        config.general_profile_idc < 32,
        config.general_constraint_indicator_flags < 0x1_0000_0000_0000,
        config.min_spatial_segmentation_idc < 0x1000,
        config.parallelism_type < 4,
        config.chroma_format_idc < 4,
        8 <= config.bit_depth_luma < 16,
        8 <= config.bit_depth_chroma < 16,
        config.constant_frame_rate < 4,
        config.num_temporal_layers < 8,
        1 <= config.nal_length_size <= 4,
    ensures
        ({
            let record = navigation::payload(hvcc::hvcc_box(config));
            &&& record[0] == 1
            &&& record[1] / 0x40 == config.general_profile_space
            &&& record[1] / 0x20 % 2 == 1 <==> config.general_tier_flag
            &&& record[1] % 0x20 == config.general_profile_idc
            &&& bytes::u32_at(record, 2) == config.general_profile_compatibility_flags
            &&& bytes::u16_at(record, 6) * 0x1_0000_0000 + bytes::u32_at(record, 8)
                == config.general_constraint_indicator_flags
            &&& record[12] == config.general_level_idc
            &&& bytes::u16_at(record, 13) % 0x1000 == config.min_spatial_segmentation_idc
            &&& record[15] % 4 == config.parallelism_type
            &&& record[16] % 4 == config.chroma_format_idc
            &&& record[17] % 8 + 8 == config.bit_depth_luma
            &&& record[18] % 8 + 8 == config.bit_depth_chroma
            &&& bytes::u16_at(record, 19) == config.avg_frame_rate
            &&& record[21] / 0x40 == config.constant_frame_rate
            &&& record[21] / 8 % 8 == config.num_temporal_layers
            &&& record[21] / 4 % 2 == 1 <==> config.temporal_id_nested
            &&& record[21] % 4 + 1 == config.nal_length_size
        }),
{
    lemma_record_fields(config);
    lemma_profile_byte(config);
    lemma_layers_byte(config);
    lemma_depth(config.bit_depth_luma);
    lemma_depth(config.bit_depth_chroma);
    lemma_constraint_flags(config.general_constraint_indicator_flags);
}

/// The record's reserved bits are ones, and a field beyond its bits states its
/// low bits.
pub proof fn law_hevc_record_bits(config: HvcCBoxView)
    ensures
        ({
            let record = navigation::payload(hvcc::hvcc_box(config));
            &&& bytes::u16_at(record, 13) / 0x1000 == 0xf
            &&& bytes::u16_at(record, 13) % 0x1000 == config.min_spatial_segmentation_idc % 0x1000
            &&& record[15] / 4 == 0x3f
            &&& record[15] % 4 == config.parallelism_type % 4
            &&& record[16] / 4 == 0x3f
            &&& record[16] % 4 == config.chroma_format_idc % 4
            &&& record[17] / 8 == 0x1f
            &&& record[18] / 8 == 0x1f
        }),
{
    lemma_record_fields(config);
    reveal(hvcc::depth_minus_eight);
}

proof fn lemma_leading_ends(sets: Seq<HvcCParameterSetView>, first: HvcCParameterSetView)
    ensures
        hvcc::leading(sets, first) < sets.len() ==> !hvcc::same_array(
            sets[hvcc::leading(sets, first) as int],
            first,
        ),
    decreases sets.len(),
{
    if sets.len() > 0 && hvcc::same_array(sets[0], first) {
        lemma_leading_ends(sets.drop_first(), first);
        lemma_leading(sets.drop_first(), first);
    }
}

/// Parameter sets of one type and completeness that follow one another share an
/// array: an array ends only where the next set differs in one of them, and the
/// arrays of the rest follow.
pub proof fn law_arrays_end_where_sets_differ(sets: Seq<HvcCParameterSetView>)
    requires
        sets.len() > 0,
    ensures
        ({
            let n = hvcc::first_run(sets);
            let later = sets.skip(n as int);
            &&& 1 <= n <= sets.len()
            &&& forall|i: int|
                0 <= i < n ==> (#[trigger] sets[i]).nal_unit_type == sets[0].nal_unit_type
                    && sets[i].array_completeness == sets[0].array_completeness
            &&& n < sets.len() ==> sets[n as int].nal_unit_type != sets[0].nal_unit_type
                || sets[n as int].array_completeness != sets[0].array_completeness
            &&& hvcc::array_count(sets) == 1 + hvcc::array_count(later)
            &&& hvcc::set_arrays(sets) == hvcc::set_array(sets.take(n as int)) + hvcc::set_arrays(
                later,
            )
        }),
        hvcc::array_count(Seq::empty()) == 0,
        hvcc::set_arrays(Seq::empty()) == Seq::<u8>::empty(),
{
    hvcc::lemma_leading_bound(sets, sets[0]);
    lemma_leading(sets, sets[0]);
    lemma_leading_ends(sets, sets[0]);
}

} // verus!
