//! How the samples are coded, and what they are to each other.
use vstd::prelude::*;

use crate::boxes;
use crate::boxes::Av1CBox;
use crate::bytes;
use crate::codec::CodecView;
use crate::fourcc::{
    AUXI, AUXL, AUXV, AV01, AV1C, AVIF, AVIS, CCST, CLAP, COLR, HEIC, HEVC, HVC1, HVCC, ISO8, MIAF,
    MIF1, MSF1, PICT, STSD,
};
use crate::framing;
use crate::laws::headers;
use crate::laws::samples;
use crate::laws::tables;
use crate::meta;
use crate::navigation;
use crate::reader;
use crate::sequence::SequenceView;
use crate::track;

verus! {

// ─── Brands ──────────────────────────────────────────────────────────

/// The brands that a file of the given coding is compatible with.
pub open spec fn brands(hevc: bool) -> Seq<u32> {
    if hevc {
        seq![MIF1, HEIC, MIAF, MSF1, ISO8, HEVC]
    } else {
        seq![AVIS, AVIF, MIF1, MIAF, ISO8]
    }
}

/// A table grows by its last field.
pub broadcast proof fn lemma_table_push(values: Seq<u32>, value: u32)
    ensures
        #[trigger] bytes::be32_table(values.push(value)) == bytes::be32_table(values)
            + bytes::be32(value),
{
    assert(values.push(value).drop_last() =~= values);
}

/// The file type, as a table of brands after two fields.
proof fn lemma_ftyp(codec: CodecView)
    ensures
        navigation::payload(meta::ftyp_box(codec)) == bytes::be32(
            if codec is Hevc {
                HEVC
            } else {
                AVIS
            },
        ) + (bytes::be32(0) + bytes::be32_table(brands(codec is Hevc))),
{
    broadcast use {framing::group_framing, lemma_table_push, navigation::lemma_payload};

    reveal(meta::ftyp_box);
    let none = Seq::<u32>::empty();
    assert(bytes::be32_table(none) =~= Seq::<u8>::empty());
    if codec is Hevc {
        assert(brands(true) == none.push(MIF1).push(HEIC).push(MIAF).push(MSF1).push(ISO8).push(
            HEVC,
        ));
        assert(bytes::be32_table(none.push(MIF1)) =~= bytes::be32(MIF1));
        assert(bytes::be32_table(brands(true)) == bytes::be32(MIF1) + bytes::be32(HEIC)
            + bytes::be32(MIAF) + bytes::be32(MSF1) + bytes::be32(ISO8) + bytes::be32(HEVC));
    } else {
        assert(brands(false) == none.push(AVIS).push(AVIF).push(MIF1).push(MIAF).push(ISO8));
        assert(bytes::be32_table(none.push(AVIS)) =~= bytes::be32(AVIS));
        assert(bytes::be32_table(brands(false)) == bytes::be32(AVIS) + bytes::be32(AVIF)
            + bytes::be32(MIF1) + bytes::be32(MIAF) + bytes::be32(ISO8));
    }
}

/// A file is foremost an AVIF sequence or an HEVC file, and it is compatible
/// with the brands of its coding and with no other.
pub proof fn law_brands_read_back(sequence: SequenceView, brand: u32)
    requires
        sequence.file().len() <= u32::MAX,
    ensures
        reader::major_brand(sequence.file()) == Some(
            if sequence.image.hevc_config is Some {
                HEVC as int
            } else {
                AVIS as int
            },
        ),
        reader::is_compatible(sequence.file(), brand) <==> brands(
            sequence.image.hevc_config is Some,
        ).contains(brand),
{
    broadcast use {framing::group_framing, bytes::lemma_be32_table_len};

    let codec = sequence.color_codec();
    let list = brands(codec is Hevc);
    let major: u32 = if codec is Hevc {
        HEVC
    } else {
        AVIS
    };
    let nothing = Seq::<u8>::empty();
    let ftyp = navigation::payload(meta::ftyp_box(codec));
    navigation::lemma_file(sequence);
    lemma_ftyp(codec);
    assert(ftyp =~= nothing + (bytes::be32(major) + (bytes::be32(0) + bytes::be32_table(list))));
    bytes::lemma_u32_at(nothing, major, bytes::be32(0) + bytes::be32_table(list));
    let before = bytes::be32(major) + bytes::be32(0);
    assert(ftyp =~= before + (bytes::be32_table(list) + nothing));
    assert forall|j: int| 0 <= j < list.len() implies #[trigger] reader::compatible_brand(ftyp, j)
        == list[j] by {
        bytes::lemma_be32_table_at(before, list, nothing, j);
    }
    assert(ftyp.len() == 8 + 4 * list.len());
    if list.contains(brand) {
        let j = list.index_of(brand);
        assert(reader::compatible_brand(ftyp, j) == brand);
    }
}

// ─── Sample entries ──────────────────────────────────────────────────

/// A track of an AV1 file names AV1 as its coding, and its sample entry holds
/// the AV1 configuration and no HEVC one; a track of an HEVC file, the other
/// way round. The color and the alpha track are of one coding.
pub proof fn law_coding_reads_back(sequence: SequenceView, k: nat)
    requires
        sequence.file().len() <= u32::MAX,
        navigation::has_track(sequence, k),
    ensures
        ({
            let codec = navigation::nth_track(sequence, k).codec;
            let entry = reader::entry_boxes(
                sequence.file(),
                k,
                if sequence.image.hevc_config is Some {
                    HVC1
                } else {
                    AV01
                },
            );
            let config = Some(navigation::payload(codec.config_box()));
            if sequence.image.hevc_config is Some {
                &&& reader::coding(sequence.file(), k) == Some(HVC1 as int)
                &&& codec is Hevc
                &&& reader::inside(entry, HVCC) == config
                &&& reader::inside(entry, AV1C) is None
            } else {
                &&& reader::coding(sequence.file(), k) == Some(AV01 as int)
                &&& codec is Av1
                &&& reader::inside(entry, AV1C) == config
                &&& reader::inside(entry, HVCC) is None
            }
        }),
{
    let t = navigation::nth_track(sequence, k);
    navigation::lemma_track_tables(sequence, k);
    navigation::lemma_stsd(t);
    navigation::lemma_entry(t, AV1C);
    navigation::lemma_entry(t, HVCC);
}

/// Every sample entry states the coded size, each side of up to 65535 exactly
/// and a larger one as that.
#[verifier::rlimit(30)]
pub proof fn law_entry_size_reads_back(sequence: SequenceView, k: nat)
    requires
        sequence.file().len() <= u32::MAX,
        navigation::has_track(sequence, k),
    ensures
        reader::entry_size(
            sequence.file(),
            k,
            sequence.color_codec().sample_entry(),
        ) == Some(
            (
                if sequence.width <= 0xFFFF {
                    sequence.width as int
                } else {
                    0xFFFF
                },
                if sequence.height <= 0xFFFF {
                    sequence.height as int
                } else {
                    0xFFFF
                },
            ),
        ),
{
    broadcast use framing::group_framing;

    let t = navigation::nth_track(sequence, k);
    navigation::lemma_track_tables(sequence, k);
    navigation::lemma_stsd(t);
    let width = track::side16(t.width);
    let height = track::side16(t.height);
    let head = bytes::zeros(6) + bytes::be16(1) + bytes::be16(0) + bytes::be16(0) + bytes::zeros(
        12,
    );
    let tail = bytes::be32(0x0048_0000) + bytes::be32(0x0048_0000) + bytes::be32(0) + bytes::be16(1)
        + bytes::zeros(32) + bytes::be16(0x0018) + bytes::be16(0xFFFF) + navigation::entry_rest(t);
    let entry = track::visual_fields(t.width, t.height) + navigation::entry_rest(t);
    assert(entry == head + (bytes::be16(width) + (bytes::be16(height) + tail))) by {
        reveal(track::visual_fields);
    }
    bytes::lemma_u16_at(head, width, bytes::be16(height) + tail);
    assert(entry == (head + bytes::be16(width)) + (bytes::be16(height) + tail));
    bytes::lemma_u16_at(head + bytes::be16(width), height, tail);
}

/// Every track says where the picture is in the coded frames where that was
/// set, and only there.
pub proof fn law_crop_reads_back(sequence: SequenceView, k: nat)
    requires
        sequence.file().len() <= u32::MAX,
        navigation::has_track(sequence, k),
    ensures
        reader::inside(
            reader::entry_boxes(sequence.file(), k, sequence.color_codec().sample_entry()),
            CLAP,
        ) == (match sequence.image.clap {
            Some(clap) => Some(navigation::payload(boxes::clap_box(clap))),
            None => None,
        }),
{
    let t = navigation::nth_track(sequence, k);
    navigation::lemma_track_tables(sequence, k);
    navigation::lemma_stsd(t);
    navigation::lemma_entry(t, CLAP);
}

/// The color track states the color information that was set, unless a reader
/// assumes it anyway, and the alpha track states none.
pub proof fn law_color_is_stated_on_the_track(sequence: SequenceView)
    requires
        sequence.file().len() <= u32::MAX,
    ensures
        reader::inside(
            reader::entry_boxes(sequence.file(), 0, sequence.color_codec().sample_entry()),
            COLR,
        ) == (if meta::states_colr(sequence.image.colr) {
            Some(navigation::payload(boxes::colr_box(sequence.image.colr->0)))
        } else {
            None
        }),
        reader::inside(
            reader::entry_boxes(sequence.file(), 1, sequence.color_codec().sample_entry()),
            COLR,
        ) is None,
{
    navigation::lemma_file(sequence);
    navigation::lemma_track_tables(sequence, 0);
    navigation::lemma_stsd(sequence.color_track());
    navigation::lemma_entry(sequence.color_track(), COLR);
    if sequence.has_alpha() {
        navigation::lemma_track_tables(sequence, 1);
        navigation::lemma_stsd(sequence.alpha_track());
        navigation::lemma_entry(sequence.alpha_track(), COLR);
    }
}

/// A track describes its samples by one sample entry, which holds its
/// configuration, what an auxiliary track carries, the color information and the
/// crop where they apply, and the coding constraints, in this order and nothing
/// else.
pub proof fn law_entry_order(sequence: SequenceView, k: nat)
    requires
        sequence.file().len() <= u32::MAX,
        navigation::has_track(sequence, k),
    ensures
        ({
            let boxes = reader::entry_boxes(
                sequence.file(),
                k,
                sequence.color_codec().sample_entry(),
            );
            let described = reader::inside(reader::sample_table(sequence.file(), k), STSD);
            let entries = reader::past(described, 8);
            &&& described is Some && entries is Some
            &&& bytes::u32_at(described->0, 4) == 1
            &&& reader::is_tiled(entries->0)
            &&& reader::kinds(entries->0) == seq![sequence.color_codec().sample_entry() as int]
            &&& boxes is Some
            &&& reader::is_tiled(boxes->0)
            &&& reader::kinds(boxes->0) == navigation::entry_kinds(
                navigation::nth_track(sequence, k),
            )
        }),
{
    let t = navigation::nth_track(sequence, k);
    navigation::lemma_track_tables(sequence, k);
    navigation::lemma_stsd(t);
    navigation::lemma_entry_kinds(t);
}

/// A track claims to be all intra-coded exactly where every frame is a sync frame.
pub proof fn law_all_intra_only_where_every_frame_is_sync(sequence: SequenceView, k: nat)
    requires
        sequence.file().len() <= u32::MAX,
        navigation::has_track(sequence, k),
    ensures
        reader::claims_all_intra(
            sequence.file(),
            k,
            sequence.color_codec().sample_entry(),
        ) == Some(
            forall|i: int|
                0 <= i < sequence.frames.len() ==> (#[trigger] sequence.frames[i]).is_sync,
        ),
{
    broadcast use framing::group_framing;

    let t = navigation::nth_track(sequence, k);
    navigation::lemma_track_tables(sequence, k);
    navigation::lemma_stsd(t);
    navigation::lemma_entry(t, CCST);
    samples::lemma_few_frames(sequence);
    tables::law_sync_samples(sequence.frames);
    let intra = track::all_intra(t);
    let byte: u8 = if intra {
        0xC0
    } else {
        0x7C
    };
    let head = framing::version_flags(0, 0);
    let ccst = navigation::payload(track::ccst_box(intra));
    assert(ccst == head + (seq![byte] + bytes::zeros(3))) by {
        broadcast use navigation::lemma_payload;

        reveal(track::ccst_box);
    }
    assert(ccst[4] == byte);
}

/// The handler of a track.
proof fn lemma_handler(handler: u32, name: Seq<char>)
    ensures
        bytes::u32_at(navigation::payload(meta::hdlr_box(handler, name)), 8) == handler,
{
    broadcast use framing::group_framing;

    let head = framing::version_flags(0, 0) + bytes::be32(0);
    let tail = bytes::zeros(12) + vstd::utf8::encode_utf8(name) + seq![0u8];
    assert(navigation::payload(meta::hdlr_box(handler, name)) == head + (bytes::be32(handler)
        + tail)) by {
        broadcast use navigation::lemma_payload;

        reveal(meta::hdlr_box);
    }
    bytes::lemma_u32_at(head, handler, tail);
}

/// The color track is a picture track. The alpha track is not: it is marked as
/// auxiliary to the color track, and names by the coding's own URN that what it
/// carries is alpha.
pub proof fn law_alpha_is_marked(sequence: SequenceView)
    requires
        sequence.file().len() <= u32::MAX,
    ensures
        reader::handler(sequence.file(), 0) == Some(PICT as int),
        reader::auxiliary_type(
            sequence.file(),
            0,
            sequence.color_codec().sample_entry(),
        ) is None,
        sequence.has_alpha() ==> {
            &&& reader::handler(sequence.file(), 1) == Some(AUXV as int)
            &&& reader::track_id(sequence.file(), 0) is Some
            &&& reader::auxiliary_to(sequence.file(), 1) == reader::track_id(sequence.file(), 0)
            &&& reader::auxiliary_type(
                sequence.file(),
                1,
                sequence.color_codec().sample_entry(),
            ) == Some(
                vstd::utf8::encode_utf8(
                    if sequence.image.hevc_config is Some {
                        "urn:mpeg:hevc:2015:auxid:1"@
                    } else {
                        "urn:mpeg:mpegB:cicp:systems:auxiliary:alpha"@
                    },
                ) + seq![0u8],
            )
        },
{
    broadcast use {framing::group_framing, reader::group_reader};

    let color = sequence.color_track();
    navigation::lemma_track_tables(sequence, 0);
    navigation::lemma_stsd(color);
    navigation::lemma_entry(color, AUXI);
    headers::lemma_tkhd_fields(color);
    lemma_handler(PICT, "Color"@);
    if sequence.has_alpha() {
        let alpha = sequence.alpha_track();
        let urn = vstd::utf8::encode_utf8(alpha.codec.alpha_urn()) + seq![0u8];
        let fields = framing::version_flags(0, 0);
        let nothing = Seq::<u8>::empty();
        navigation::lemma_track_tables(sequence, 1);
        navigation::lemma_stsd(alpha);
        navigation::lemma_entry(alpha, AUXI);
        lemma_handler(AUXV, "Alpha"@);
        assert(navigation::payload(track::auxi_box(alpha.codec.alpha_urn())) == fields + urn) by {
            broadcast use navigation::lemma_payload;

            reveal(track::auxi_box);
        }
        navigation::lemma_past(fields, urn);
        assert(navigation::payload(track::tref_box()) == framing::mp4_box(AUXL, bytes::be32(1))) by {
            broadcast use navigation::lemma_payload;

            reveal(track::tref_box);
        }
        assert(bytes::be32(1) =~= nothing + (bytes::be32(1) + nothing));
        bytes::lemma_u32_at(nothing, 1, nothing);
    }
}

// ─── Configurations ──────────────────────────────────────────────────

/// Every field of an AV1 configuration within its bits reads back from the box,
/// and what follows them is the sequence header.
#[verifier::rlimit(30)]
pub proof fn law_av1_config_reads_back(config: Av1CBox, seq_header: Seq<u8>)
    requires
        config.seq_profile < 8,
        config.seq_level_idx_0 < 32,
        config.chroma_sample_position < 4,
    ensures
        ({
            let record = navigation::payload(boxes::av1c_box(config, seq_header));
            &&& record[0] == 0x81
            &&& record[1] / 32 == config.seq_profile
            &&& record[1] % 32 == config.seq_level_idx_0
            &&& record[2] / 128 == 1 <==> config.seq_tier_0
            &&& record[2] / 64 % 2 == 1 <==> config.high_bitdepth
            &&& record[2] / 32 % 2 == 1 <==> config.twelve_bit
            &&& record[2] / 16 % 2 == 1 <==> config.monochrome
            &&& record[2] / 8 % 2 == 1 <==> config.chroma_subsampling_x
            &&& record[2] / 4 % 2 == 1 <==> config.chroma_subsampling_y
            &&& record[2] % 4 == config.chroma_sample_position
            &&& record.skip(4) == seq_header
        }),
{
    broadcast use navigation::lemma_payload;

    reveal(boxes::av1c_box);
    let record = navigation::payload(boxes::av1c_box(config, seq_header));
    assert(record.skip(4) =~= seq_header);
    let profile = config.seq_profile;
    let level = config.seq_level_idx_0;
    assert(((profile << 5) | level) / 32 == profile && ((profile << 5) | level) % 32 == level)
        by (bit_vector)
        requires
            profile < 8,
            level < 32,
    ;
    let a: u8 = if config.seq_tier_0 { 0x80 } else { 0 };
    let b: u8 = if config.high_bitdepth { 0x40 } else { 0 };
    let c: u8 = if config.twelve_bit { 0x20 } else { 0 };
    let d: u8 = if config.monochrome { 0x10 } else { 0 };
    let e: u8 = if config.chroma_subsampling_x { 0x08 } else { 0 };
    let f: u8 = if config.chroma_subsampling_y { 0x04 } else { 0 };
    let g = config.chroma_sample_position;
    assert((a | b | c | d | e | f | g) == a + b + c + d + e + f + g) by (bit_vector)
        requires
            a == 0x80 || a == 0,
            b == 0x40 || b == 0,
            c == 0x20 || c == 0,
            d == 0x10 || d == 0,
            e == 0x08 || e == 0,
            f == 0x04 || f == 0,
            g < 4,
    ;
}

/// What an AV1 configuration holds of values beyond their bits: a level's excess
/// and a profile's low three bits share theirs, a chroma position's excess shares
/// those of the flags, and the sequence header follows whatever they are.
pub proof fn law_av1_config_bits(config: Av1CBox, seq_header: Seq<u8>)
    ensures
        ({
            let record = navigation::payload(boxes::av1c_box(config, seq_header));
            let level = config.seq_level_idx_0;
            let position = config.chroma_sample_position;
            &&& record.len() == 4 + seq_header.len()
            &&& record[0] == 0x81
            &&& record[1] & 0x1f == level & 0x1f
            &&& record[1] >> 5 == (level >> 5) | (config.seq_profile & 7)
            &&& record[2] & 0x03 == position & 0x03
            &&& record[2] & 0x80 != 0 <==> config.seq_tier_0 || position & 0x80 != 0
            &&& record[2] & 0x40 != 0 <==> config.high_bitdepth || position & 0x40 != 0
            &&& record[2] & 0x20 != 0 <==> config.twelve_bit || position & 0x20 != 0
            &&& record[2] & 0x10 != 0 <==> config.monochrome || position & 0x10 != 0
            &&& record[2] & 0x08 != 0 <==> config.chroma_subsampling_x || position & 0x08 != 0
            &&& record[2] & 0x04 != 0 <==> config.chroma_subsampling_y || position & 0x04 != 0
            &&& record[3] == 0
            &&& record.skip(4) == seq_header
        }),
{
    broadcast use navigation::lemma_payload;

    reveal(boxes::av1c_box);
    let record = navigation::payload(boxes::av1c_box(config, seq_header));
    assert(record.skip(4) =~= seq_header);
    let profile = config.seq_profile;
    let level = config.seq_level_idx_0;
    assert(((profile << 5) | level) & 0x1f == level & 0x1f && ((profile << 5) | level) >> 5 == (
    level >> 5) | (profile & 7)) by (bit_vector);
    let a: u8 = if config.seq_tier_0 { 0x80 } else { 0 };
    let b: u8 = if config.high_bitdepth { 0x40 } else { 0 };
    let c: u8 = if config.twelve_bit { 0x20 } else { 0 };
    let d: u8 = if config.monochrome { 0x10 } else { 0 };
    let e: u8 = if config.chroma_subsampling_x { 0x08 } else { 0 };
    let f: u8 = if config.chroma_subsampling_y { 0x04 } else { 0 };
    let g = config.chroma_sample_position;
    let byte = a | b | c | d | e | f | g;
    assert({
        &&& byte & 0x03 == g & 0x03
        &&& byte & 0x80 != 0 <==> a != 0 || g & 0x80 != 0
        &&& byte & 0x40 != 0 <==> b != 0 || g & 0x40 != 0
        &&& byte & 0x20 != 0 <==> c != 0 || g & 0x20 != 0
        &&& byte & 0x10 != 0 <==> d != 0 || g & 0x10 != 0
        &&& byte & 0x08 != 0 <==> e != 0 || g & 0x08 != 0
        &&& byte & 0x04 != 0 <==> f != 0 || g & 0x04 != 0
    }) by (bit_vector)
        requires
            byte == a | b | c | d | e | f | g,
            a == 0x80 || a == 0,
            b == 0x40 || b == 0,
            c == 0x20 || c == 0,
            d == 0x10 || d == 0,
            e == 0x08 || e == 0,
            f == 0x04 || f == 0,
    ;
}

} // verus!
