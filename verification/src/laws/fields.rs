//! Headers and tables, field by field and to their last byte.
use vstd::prelude::*;

use crate::bytes;
use crate::fourcc::{AUXL, AUXV, DREF, ELST, INFE, PICT, URL};
use crate::framing;
use crate::laws::tables;
use crate::meta;
use crate::navigation;
use crate::presentation;
use crate::reader;
use crate::sample_table;
use crate::sequence::SequenceView;
use crate::track;
use crate::track::TrackView;

verus! {

/// Whether the nine fields from `pos` on are the transformation that changes
/// nothing: ones on the diagonal, in 16.16 and at last in 2.30 fixed point.
pub open spec fn is_identity(s: Seq<u8>, pos: int) -> bool {
    &&& bytes::u32_at(s, pos) == 0x1_0000
    &&& bytes::u32_at(s, pos + 4) == 0
    &&& bytes::u32_at(s, pos + 8) == 0
    &&& bytes::u32_at(s, pos + 12) == 0
    &&& bytes::u32_at(s, pos + 16) == 0x1_0000
    &&& bytes::u32_at(s, pos + 20) == 0
    &&& bytes::u32_at(s, pos + 24) == 0
    &&& bytes::u32_at(s, pos + 28) == 0
    &&& bytes::u32_at(s, pos + 32) == 0x4000_0000
}

/// Whether the bytes from `from` to `to` are zero.
pub open spec fn is_zero(s: Seq<u8>, from: int, to: int) -> bool {
    forall|i: int| from <= i < to ==> #[trigger] s[i] == 0
}

proof fn lemma_matrix(before: Seq<u8>, after: Seq<u8>)
    ensures
        track::identity_matrix().len() == 36,
        is_identity(before + (track::identity_matrix() + after), before.len() as int),
{
    broadcast use bytes::lemma_be32_table_len;

    reveal(track::identity_matrix);
    let values = seq![0x0001_0000u32, 0, 0, 0, 0x0001_0000, 0, 0, 0, 0x4000_0000];
    bytes::lemma_be32_table_at(before, values, after, 0);
    bytes::lemma_be32_table_at(before, values, after, 1);
    bytes::lemma_be32_table_at(before, values, after, 2);
    bytes::lemma_be32_table_at(before, values, after, 3);
    bytes::lemma_be32_table_at(before, values, after, 4);
    bytes::lemma_be32_table_at(before, values, after, 5);
    bytes::lemma_be32_table_at(before, values, after, 6);
    bytes::lemma_be32_table_at(before, values, after, 7);
    bytes::lemma_be32_table_at(before, values, after, 8);
}

proof fn lemma_zeros(before: Seq<u8>, n: nat, after: Seq<u8>)
    ensures
        is_zero(
            before + (bytes::zeros(n) + after),
            before.len() as int,
            before.len() as int + n,
        ),
{
    reveal(bytes::zeros);
    let s = before + (bytes::zeros(n) + after);
    assert forall|i: int| before.len() <= i < before.len() + n implies #[trigger] s[i] == 0 by {
        assert(s[i] == bytes::zeros(n)[i - before.len()]);
    }
}

// ─── Headers ─────────────────────────────────────────────────────────

/// A movie header states its timescale, its duration and the next identifier,
/// plays at normal speed and volume, and transforms nothing.
#[verifier::rlimit(40)]
pub proof fn law_movie_header_fields(timescale: u32, duration: u64, next_track_id: u32)
    ensures
        ({
            let mvhd = navigation::payload(track::mvhd_box(timescale, duration, next_track_id));
            &&& mvhd.len() == 112
            &&& bytes::u32_at(mvhd, 0) == 0x100_0000
            &&& bytes::u64_at(mvhd, 4) == 0
            &&& bytes::u64_at(mvhd, 12) == 0
            &&& bytes::u32_at(mvhd, 20) == timescale
            &&& bytes::u64_at(mvhd, 24) == duration
            &&& bytes::u32_at(mvhd, 32) == 0x1_0000
            &&& bytes::u16_at(mvhd, 36) == 0x100
            &&& is_zero(mvhd, 38, 48)
            &&& is_identity(mvhd, 48)
            &&& is_zero(mvhd, 84, 108)
            &&& bytes::u32_at(mvhd, 108) == next_track_id
        }),
{
    let version = framing::version_flags(1, 0);
    let matrix = track::identity_matrix();
    let start = bytes::be64(0) + (bytes::be64(0) + (bytes::be32(timescale) + (bytes::be64(duration)
        + (bytes::be32(0x0001_0000) + bytes::be16(0x0100)))));
    let last = bytes::be32(next_track_id);
    let from_padding = bytes::zeros(24) + last;
    let from_matrix = matrix + from_padding;
    let from_reserved = bytes::zeros(10) + from_matrix;
    let mvhd = navigation::payload(track::mvhd_box(timescale, duration, next_track_id));
    let plain = version + (start + from_reserved);
    assert(mvhd == plain) by {
        broadcast use {framing::group_framing, navigation::lemma_payload};

        reveal(track::mvhd_box);
    }
    lemma_matrix(version + start + bytes::zeros(10), from_padding);
    lemma_zeros(version + start, 10, from_matrix);
    lemma_zeros(version + start + bytes::zeros(10) + matrix, 24, last);
    assert(mvhd.len() == 112 && (version + start).len() == 38) by {
        broadcast use framing::group_framing;

    }
    assert(mvhd =~= (version + start) + from_reserved);
    assert(mvhd =~= (version + start + bytes::zeros(10)) + from_matrix) by {
        broadcast use framing::group_framing;

    }
    assert(mvhd =~= (version + start + bytes::zeros(10) + matrix) + from_padding) by {
        broadcast use framing::group_framing;

    }
    assert((version + start + bytes::zeros(10)).len() == 48) by {
        broadcast use framing::group_framing;

    }
    lemma_version_word(1, 0, start + from_reserved);
    assert({
        &&& bytes::u64_at(mvhd, 4) == 0
        &&& bytes::u64_at(mvhd, 12) == 0
        &&& bytes::u32_at(mvhd, 20) == timescale
        &&& bytes::u64_at(mvhd, 24) == duration
        &&& bytes::u32_at(mvhd, 32) == 0x1_0000
        &&& bytes::u16_at(mvhd, 36) == 0x100
        &&& bytes::u32_at(mvhd, 108) == next_track_id
    }) by {
        broadcast use {framing::group_framing, bytes::group_fields};

        assert(plain == version + (bytes::be64(0) + (bytes::be64(0) + (bytes::be32(timescale) + (
        bytes::be64(duration) + (bytes::be32(0x0001_0000) + (bytes::be16(0x0100)
            + from_reserved)))))));
    }
}

/// The word that opens a full box holds the version above 24 bits of flags.
proof fn lemma_version_word(version: u8, flags: u32, rest: Seq<u8>)
    ensures
        bytes::u32_at(framing::version_flags(version, flags) + rest, 0) == version * 0x100_0000
            + flags % 0x100_0000,
{
    reveal(framing::version_flags);
}

/// A track header states its identifier and how long it is presented, is enabled,
/// and in the movie unless it is auxiliary; it is in no layer or group, silent,
/// and transforms nothing.
#[verifier::rlimit(40)]
pub proof fn law_track_header_fields(t: TrackView)
    ensures
        ({
            let tkhd = navigation::payload(track::tkhd_box(t));
            &&& tkhd.len() == 96
            &&& bytes::u32_at(tkhd, 0) == 0x100_0000 + (if t.is_alpha {
                1int
            } else {
                3
            })
            &&& bytes::u64_at(tkhd, 4) == 0
            &&& bytes::u64_at(tkhd, 12) == 0
            &&& bytes::u32_at(tkhd, 20) == t.id
            &&& bytes::u32_at(tkhd, 24) == 0
            &&& bytes::u64_at(tkhd, 28) == (match t.presented {
                presentation::Presentation::Once => t.duration,
                presentation::Presentation::Repeats(total) => total,
                presentation::Presentation::Forever => u64::MAX,
            })
            &&& is_zero(tkhd, 36, 44)
            &&& bytes::u16_at(tkhd, 44) == 0
            &&& bytes::u16_at(tkhd, 46) == 0
            &&& bytes::u16_at(tkhd, 48) == 0
            &&& bytes::u16_at(tkhd, 50) == 0
            &&& is_identity(tkhd, 52)
        }),
{
    let flags: u32 = if t.is_alpha {
        1
    } else {
        3
    };
    let duration = presentation::presented_duration(t.presented, t.duration);
    let width = presentation::fixed_16_16(presentation::shown_width(t.width, t.clap));
    let height = presentation::fixed_16_16(presentation::shown_height(t.height, t.clap));
    let version = framing::version_flags(1, flags);
    let matrix = track::identity_matrix();
    let start = bytes::be64(0) + (bytes::be64(0) + (bytes::be32(t.id) + (bytes::be32(0)
        + bytes::be64(duration))));
    let layers = bytes::be16(0) + (bytes::be16(0) + (bytes::be16(0) + bytes::be16(0)));
    let last = bytes::be32(width) + bytes::be32(height);
    let from_matrix = matrix + last;
    let from_reserved = bytes::zeros(8) + (layers + from_matrix);
    let tkhd = navigation::payload(track::tkhd_box(t));
    let plain = version + (start + from_reserved);
    assert(tkhd == plain) by {
        broadcast use {framing::group_framing, navigation::lemma_payload};

        reveal(track::tkhd_box);
    }
    let before_matrix = version + start + bytes::zeros(8) + layers;
    lemma_matrix(before_matrix, last);
    lemma_zeros(version + start, 8, layers + from_matrix);
    assert(tkhd.len() == 96 && (version + start).len() == 36 && before_matrix.len() == 52) by {
        broadcast use framing::group_framing;

    }
    assert(tkhd =~= (version + start) + from_reserved);
    assert(tkhd =~= before_matrix + from_matrix) by {
        broadcast use framing::group_framing;

    }
    lemma_version_word(1, flags, start + from_reserved);
    assert({
        &&& bytes::u64_at(tkhd, 4) == 0
        &&& bytes::u64_at(tkhd, 12) == 0
        &&& bytes::u32_at(tkhd, 20) == t.id
        &&& bytes::u32_at(tkhd, 24) == 0
        &&& bytes::u64_at(tkhd, 28) == duration
        &&& bytes::u16_at(tkhd, 44) == 0
        &&& bytes::u16_at(tkhd, 46) == 0
        &&& bytes::u16_at(tkhd, 48) == 0
        &&& bytes::u16_at(tkhd, 50) == 0
    }) by {
        broadcast use {framing::group_framing, bytes::group_fields};

        assert(plain == version + (bytes::be64(0) + (bytes::be64(0) + (bytes::be32(t.id) + (
        bytes::be32(0) + (bytes::be64(duration) + (bytes::zeros(8) + (bytes::be16(0) + (
        bytes::be16(0) + (bytes::be16(0) + (bytes::be16(0) + from_matrix)))))))))));
    }
}

/// A media header states its timescale and the media's duration, and no language.
pub proof fn law_media_header_fields(timescale: u32, duration: u64)
    ensures
        ({
            let mdhd = navigation::payload(track::mdhd_box(timescale, duration));
            &&& mdhd.len() == 36
            &&& bytes::u32_at(mdhd, 0) == 0x100_0000
            &&& bytes::u64_at(mdhd, 4) == 0
            &&& bytes::u64_at(mdhd, 12) == 0
            &&& bytes::u32_at(mdhd, 20) == timescale
            &&& bytes::u64_at(mdhd, 24) == duration
            &&& bytes::u16_at(mdhd, 32) == 0x55C4
            &&& bytes::u16_at(mdhd, 34) == 0
        }),
{
    broadcast use {framing::group_framing, navigation::lemma_payload, bytes::group_fields};

    reveal(track::mdhd_box);
    lemma_version_word(
        1,
        0,
        bytes::be64(0) + (bytes::be64(0) + (bytes::be32(timescale) + (bytes::be64(duration) + (
        bytes::be16(0x55C4) + bytes::be16(0))))),
    );
}

/// An edit list has one entry that repeats at normal speed, from the start of the
/// media to its end, in the version that can state it.
pub proof fn law_edit_list_fields(duration: u64)
    ensures
        ({
            let edts = navigation::payload(track::edts_box(duration));
            let elst = reader::nth_box(edts, ELST, 0);
            &&& reader::is_tiled(edts)
            &&& reader::kinds(edts) == seq![ELST as int]
            &&& elst is Some
            &&& bytes::u32_at(elst->0, 4) == 1
            &&& duration <= u32::MAX ==> {
                &&& elst->0.len() == 20
                &&& bytes::u32_at(elst->0, 0) == 1
                &&& bytes::u32_at(elst->0, 8) == duration
                &&& bytes::u32_at(elst->0, 12) == 0
                &&& bytes::u16_at(elst->0, 16) == 1
                &&& bytes::u16_at(elst->0, 18) == 0
            }
            &&& duration > u32::MAX ==> {
                &&& elst->0.len() == 28
                &&& bytes::u32_at(elst->0, 0) == 0x100_0001
                &&& bytes::u64_at(elst->0, 8) == duration
                &&& bytes::u64_at(elst->0, 16) == 0
                &&& bytes::u16_at(elst->0, 24) == 1
                &&& bytes::u16_at(elst->0, 26) == 0
            }
        }),
{
    broadcast use {
        framing::group_framing,
        navigation::lemma_payload,
        bytes::group_fields,
        reader::group_reader,
    };

    let nothing = Seq::<u8>::empty();
    let rate = bytes::be16(1) + bytes::be16(0);
    let narrow = bytes::be32(1) + (bytes::be32(duration as u32) + (bytes::be32(0) + rate));
    let wide = bytes::be32(1) + (bytes::be64(duration) + (bytes::be64(0) + rate));
    let elst = if duration <= u32::MAX {
        framing::version_flags(0, 1) + narrow
    } else {
        framing::version_flags(1, 1) + wide
    };
    assert(navigation::payload(track::edts_box(duration)) == framing::mp4_box(ELST, elst)) by {
        reveal(track::edts_box);
    }
    lemma_version_word(0, 1, narrow);
    lemma_version_word(1, 1, wide);
    reader::lemma_kinds(ELST, elst, nothing);
    reader::lemma_kinds_nothing();
    assert(framing::mp4_box(ELST, elst) + nothing =~= framing::mp4_box(ELST, elst));
    assert(seq![ELST as int] + Seq::<int>::empty() =~= seq![ELST as int]);
}

/// A handler states what the media is, and its name to the end.
pub proof fn law_handler_fields(handler: u32, name: Seq<char>)
    ensures
        ({
            let hdlr = navigation::payload(meta::hdlr_box(handler, name));
            &&& bytes::u32_at(hdlr, 0) == 0
            &&& bytes::u32_at(hdlr, 4) == 0
            &&& bytes::u32_at(hdlr, 8) == handler
            &&& is_zero(hdlr, 12, 24)
            &&& hdlr.skip(24) == vstd::utf8::encode_utf8(name) + seq![0u8]
        }),
{
    let start = framing::version_flags(0, 0) + (bytes::be32(0) + bytes::be32(handler));
    let last = vstd::utf8::encode_utf8(name) + seq![0u8];
    let hdlr = navigation::payload(meta::hdlr_box(handler, name));
    assert(hdlr == framing::version_flags(0, 0) + (bytes::be32(0) + (bytes::be32(handler) + (
    bytes::zeros(12) + last)))) by {
        broadcast use {framing::group_framing, navigation::lemma_payload};

        reveal(meta::hdlr_box);
    }
    assert(start.len() == 12 && hdlr =~= start + (bytes::zeros(12) + last)) by {
        broadcast use framing::group_framing;

    }
    lemma_zeros(start, 12, last);
    lemma_version_word(0, 0, bytes::be32(0) + (bytes::be32(handler) + (bytes::zeros(12) + last)));
    assert(bytes::u32_at(hdlr, 4) == 0 && bytes::u32_at(hdlr, 8) == handler && hdlr.skip(24)
        =~= last) by {
        broadcast use {framing::group_framing, bytes::group_fields};

    }
}

/// The color track's handler is of pictures and the alpha track's is not.
pub proof fn law_track_handlers()
    ensures
        track::track_hdlr_box(false) == meta::hdlr_box(PICT, "Color"@),
        track::track_hdlr_box(true) == meta::hdlr_box(AUXV, "Alpha"@),
{
}

/// The video header says nothing beyond that it is one, and the media is in this
/// file.
pub proof fn law_media_is_in_this_file()
    ensures
        ({
            let vmhd = navigation::payload(track::vmhd_box());
            &&& vmhd.len() == 12
            &&& bytes::u32_at(vmhd, 0) == 1
            &&& is_zero(vmhd, 4, 12)
        }),
        ({
            let dref = reader::nth_box(navigation::payload(track::dinf_box()), DREF, 0);
            let entry = reader::inside(reader::past(dref, 8), URL);
            &&& dref is Some
            &&& bytes::u32_at(dref->0, 0) == 0
            &&& bytes::u32_at(dref->0, 4) == 1
            &&& dref->0.len() == 20
            &&& entry is Some
            &&& entry->0.len() == 4
            &&& bytes::u32_at(entry->0, 0) == 1
        }),
{
    broadcast use {
        framing::group_framing,
        navigation::lemma_payload,
        bytes::group_fields,
        reader::group_reader,
    };

    reveal(track::vmhd_box);
    reveal(track::dinf_box);
    let nothing = Seq::<u8>::empty();
    lemma_version_word(0, 1, bytes::zeros(8));
    assert(bytes::zeros(8) + nothing =~= bytes::zeros(8));
    lemma_zeros(framing::version_flags(0, 1), 8, nothing);
    let url = framing::mp4_box(URL, framing::version_flags(0, 1) + nothing);
    let fields = framing::version_flags(0, 0) + bytes::be32(1);
    assert(navigation::payload(track::dinf_box()) == framing::mp4_box(DREF, fields + url));
    navigation::lemma_past(fields, url);
    lemma_version_word(0, 0, bytes::be32(1) + url);
    lemma_version_word(0, 1, nothing);
}

/// A sample entry's fields: the media is in the first reference, one frame to a
/// sample, 72 dots to the inch, 24 bits deep, and no more said of the coder. Each
/// side is stated exactly up to 65535.
#[verifier::rlimit(60)]
pub proof fn law_visual_fields(width: u32, height: u32)
    ensures
        ({
            let fields = track::visual_fields(width, height);
            &&& fields.len() == 78
            &&& is_zero(fields, 0, 6)
            &&& bytes::u16_at(fields, 6) == 1
            &&& bytes::u16_at(fields, 8) == 0
            &&& bytes::u16_at(fields, 10) == 0
            &&& is_zero(fields, 12, 24)
            &&& width <= 0xFFFF ==> bytes::u16_at(fields, 24) == width
            &&& width > 0xFFFF ==> bytes::u16_at(fields, 24) == 0xFFFF
            &&& height <= 0xFFFF ==> bytes::u16_at(fields, 26) == height
            &&& height > 0xFFFF ==> bytes::u16_at(fields, 26) == 0xFFFF
            &&& bytes::u32_at(fields, 28) == 72 * 0x1_0000
            &&& bytes::u32_at(fields, 32) == 72 * 0x1_0000
            &&& bytes::u32_at(fields, 36) == 0
            &&& bytes::u16_at(fields, 40) == 1
            &&& is_zero(fields, 42, 74)
            &&& bytes::u16_at(fields, 74) == 24
            &&& bytes::u16_at(fields, 76) == 0xFFFF
        }),
{
    let nothing = Seq::<u8>::empty();
    let w = bytes::be16(track::side16(width));
    let h = bytes::be16(track::side16(height));
    let last = bytes::be16(0x0018) + bytes::be16(0xFFFF);
    let from_name = bytes::zeros(32) + last;
    let middle = w + (h + (bytes::be32(0x0048_0000) + (bytes::be32(0x0048_0000) + (bytes::be32(0)
        + bytes::be16(1)))));
    let from_middle = middle + from_name;
    let start = bytes::be16(1) + (bytes::be16(0) + bytes::be16(0));
    let from_defined = bytes::zeros(12) + from_middle;
    let from_start = start + from_defined;
    let fields = track::visual_fields(width, height);
    assert(fields == bytes::zeros(6) + from_start) by {
        broadcast use bytes::group_append;

        reveal(track::visual_fields);
    }
    let before_defined = bytes::zeros(6) + start;
    let before_name = before_defined + bytes::zeros(12) + middle;
    assert({
        &&& fields.len() == 78
        &&& before_defined.len() == 12
        &&& before_name.len() == 42
        &&& fields =~= nothing + (bytes::zeros(6) + from_start)
        &&& fields == before_defined + from_defined
        &&& fields == before_name + from_name
    }) by {
        broadcast use bytes::group_append;

    }
    lemma_zeros(nothing, 6, from_start);
    lemma_zeros(before_defined, 12, from_middle);
    lemma_zeros(before_name, 32, last);
    assert({
        &&& bytes::u16_at(fields, 6) == 1
        &&& bytes::u16_at(fields, 8) == 0
        &&& bytes::u16_at(fields, 10) == 0
        &&& bytes::u16_at(fields, 24) == track::side16(width)
        &&& bytes::u16_at(fields, 26) == track::side16(height)
        &&& bytes::u32_at(fields, 28) == 72 * 0x1_0000
        &&& bytes::u32_at(fields, 32) == 72 * 0x1_0000
        &&& bytes::u32_at(fields, 36) == 0
        &&& bytes::u16_at(fields, 40) == 1
        &&& bytes::u16_at(fields, 74) == 24
        &&& bytes::u16_at(fields, 76) == 0xFFFF
    }) by {
        broadcast use {bytes::group_append, bytes::group_fields};

    }
}

/// The constraints of a track whose pictures are all intra-coded claim it, and
/// those of another claim no bound on its references.
pub proof fn law_constraint_fields(all_intra: bool)
    ensures
        ({
            let ccst = navigation::payload(track::ccst_box(all_intra));
            &&& ccst.len() == 8
            &&& bytes::u32_at(ccst, 0) == 0
            &&& all_intra ==> ccst[4] == 0x80 + 0x40
            &&& !all_intra ==> ccst[4] == 0x40 + 15 * 4
            &&& is_zero(ccst, 5, 8)
        }),
{
    let byte: u8 = if all_intra {
        0xC0
    } else {
        0x7C
    };
    let nothing = Seq::<u8>::empty();
    let start = framing::version_flags(0, 0) + seq![byte];
    let ccst = navigation::payload(track::ccst_box(all_intra));
    assert(ccst == framing::version_flags(0, 0) + (seq![byte] + bytes::zeros(3))) by {
        broadcast use {framing::group_framing, navigation::lemma_payload};

        reveal(track::ccst_box);
    }
    assert(start.len() == 5 && ccst.len() == 8 && ccst =~= start + (bytes::zeros(3) + nothing))
        by {
        broadcast use framing::group_framing;

    }
    lemma_zeros(start, 3, nothing);
    lemma_version_word(0, 0, seq![byte] + bytes::zeros(3));
    assert(ccst[4] == byte);
}

// ─── Tables ──────────────────────────────────────────────────────────

/// Each table is as long as its entries, and says nothing of other versions,
/// other chunks or other descriptions.
pub proof fn law_table_shapes(durations: Seq<u32>, samples: Seq<Seq<u8>>, sync: Seq<u32>, at: u32)
    requires
        samples.len() <= u32::MAX,
        sync.len() <= u32::MAX,
        durations.len() <= u32::MAX,
    ensures
        ({
            let stts = navigation::payload(sample_table::stts_box(durations));
            &&& bytes::u32_at(stts, 0) == 0
            &&& stts.len() == 8 + 8 * bytes::u32_at(stts, 4)
        }),
        ({
            let stsc = navigation::payload(sample_table::stsc_box(samples.len()));
            &&& stsc.len() == 20
            &&& bytes::u32_at(stsc, 0) == 0
            &&& bytes::u32_at(stsc, 4) == 1
            &&& bytes::u32_at(stsc, 8) == 1
            &&& bytes::u32_at(stsc, 12) == samples.len()
            &&& bytes::u32_at(stsc, 16) == 1
        }),
        ({
            let stsz = navigation::payload(sample_table::stsz_box(samples));
            &&& bytes::u32_at(stsz, 0) == 0
            &&& bytes::u32_at(stsz, 4) == 0
            &&& bytes::u32_at(stsz, 8) == samples.len()
            &&& stsz.len() == 12 + 4 * samples.len()
        }),
        ({
            let stco = navigation::payload(sample_table::stco_box(at));
            &&& stco.len() == 12
            &&& bytes::u32_at(stco, 0) == 0
            &&& bytes::u32_at(stco, 4) == 1
            &&& bytes::u32_at(stco, 8) == at
        }),
        ({
            let stss = navigation::payload(sample_table::stss_box(sync));
            &&& bytes::u32_at(stss, 0) == 0
            &&& bytes::u32_at(stss, 4) == sync.len()
            &&& stss.len() == 8 + 4 * sync.len()
            &&& forall|j: int|
                0 <= j < sync.len() ==> #[trigger] reader::sync_at(stss, j) == sync[j]
        }),
{
    broadcast use {
        framing::group_framing,
        navigation::lemma_payload,
        bytes::group_fields,
        bytes::lemma_be32_table_len,
    };

    let nothing = Seq::<u8>::empty();
    let runs = sample_table::runs(durations);
    let count = bytes::be32(bytes::low32(runs.len() as int));
    let entries = sample_table::entries_of(runs);
    sample_table::lemma_runs_bound(durations);
    tables::lemma_run_table_len(entries);
    reveal(sample_table::stts_box);
    reveal(sample_table::stsc_box);
    reveal(sample_table::stsz_box);
    reveal(sample_table::stco_box);
    reveal(sample_table::stss_box);
    let n = bytes::be32(bytes::low32(samples.len() as int));
    let one = bytes::be32(1);
    lemma_version_word(0, 0, count + sample_table::run_table(entries));
    lemma_version_word(0, 0, one + (one + (n + one)));
    lemma_version_word(
        0,
        0,
        bytes::be32(0) + (n + bytes::be32_table(sample_table::sizes(samples))),
    );
    lemma_version_word(0, 0, one + bytes::be32(at));
    let listed = bytes::be32(bytes::low32(sync.len() as int));
    lemma_version_word(0, 0, listed + bytes::be32_table(sync));
    let stss = navigation::payload(sample_table::stss_box(sync));
    let before = framing::version_flags(0, 0) + listed;
    assert(stss == before + (bytes::be32_table(sync) + nothing));
    assert forall|j: int| 0 <= j < sync.len() implies #[trigger] reader::sync_at(stss, j)
        == sync[j] by {
        bytes::lemma_be32_table_at(before, sync, nothing, j);
    }
}

// ─── The item ────────────────────────────────────────────────────────

/// The boxes that declare the item end where their fields do.
pub proof fn law_item_box_shapes(kind: u32, offset: u32, len: u32)
    ensures
        ({
            let pitm = navigation::payload(meta::pitm_box());
            &&& pitm.len() == 6
            &&& bytes::u32_at(pitm, 0) == 0
            &&& bytes::u16_at(pitm, 4) == 1
        }),
        ({
            let iloc = navigation::payload(meta::iloc_box(offset, len));
            &&& iloc.len() == 22
            &&& bytes::u32_at(iloc, 0) == 0
            &&& bytes::u16_at(iloc, 6) == 1
            &&& bytes::u32_at(iloc, 14) == offset
            &&& bytes::u32_at(iloc, 18) == len
        }),
        ({
            let iinf = navigation::payload(meta::iinf_box(kind));
            let infe = reader::inside(reader::past(Some(iinf), 6), INFE);
            &&& iinf.len() == 27
            &&& bytes::u32_at(iinf, 0) == 0
            &&& bytes::u16_at(iinf, 4) == 1
            &&& infe is Some
            &&& infe->0.len() == 13
            &&& bytes::u32_at(infe->0, 0) == 0x200_0000
            &&& bytes::u16_at(infe->0, 4) == 1
            &&& bytes::u16_at(infe->0, 6) == 0
            &&& bytes::u32_at(infe->0, 8) == kind
            &&& infe->0[12] == 0
        }),
{
    broadcast use {
        framing::group_framing,
        navigation::lemma_payload,
        bytes::group_fields,
        reader::group_reader,
    };

    reveal(meta::pitm_box);
    reveal(meta::iloc_box);
    reveal(meta::iinf_box);
    let one = bytes::be16(1);
    let infe = framing::version_flags(2, 0) + (one + (bytes::be16(0) + (bytes::be32(kind) + seq![
        0u8,
    ])));
    let fields = framing::version_flags(0, 0) + one;
    let entry = framing::mp4_box(INFE, infe);
    assert(navigation::payload(meta::iinf_box(kind)) == fields + entry);
    navigation::lemma_past(fields, entry);
    lemma_version_word(0, 0, one);
    lemma_version_word(0, 0, one + entry);
    lemma_version_word(
        2,
        0,
        one + (bytes::be16(0) + (bytes::be32(kind) + seq![0u8])),
    );
    let widths = seq![0x44u8, 0x00u8];
    lemma_version_word(
        0,
        0,
        widths + (one + (one + (bytes::be16(0) + (one + (bytes::be32(offset) + bytes::be32(
            len,
        )))))),
    );
}

/// An alpha track refers to one track, and says what it carries and no more.
pub proof fn law_alpha_boxes(urn: Seq<char>)
    ensures
        ({
            let auxl = reader::nth_box(navigation::payload(track::tref_box()), AUXL, 0);
            &&& reader::is_tiled(navigation::payload(track::tref_box()))
            &&& reader::kinds(navigation::payload(track::tref_box())) == seq![AUXL as int]
            &&& auxl is Some
            &&& auxl->0.len() == 4
            &&& bytes::u32_at(auxl->0, 0) == 1
        }),
        ({
            let auxi = navigation::payload(track::auxi_box(urn));
            &&& bytes::u32_at(auxi, 0) == 0
            &&& auxi.skip(4) == vstd::utf8::encode_utf8(urn) + seq![0u8]
        }),
{
    broadcast use {
        framing::group_framing,
        navigation::lemma_payload,
        bytes::group_fields,
        reader::group_reader,
    };

    reveal(track::tref_box);
    reveal(track::auxi_box);
    let nothing = Seq::<u8>::empty();
    let text = vstd::utf8::encode_utf8(urn) + seq![0u8];
    let auxl = framing::mp4_box(AUXL, bytes::be32(1));
    reader::lemma_kinds(AUXL, bytes::be32(1), nothing);
    reader::lemma_kinds_nothing();
    assert(auxl + nothing =~= auxl);
    assert(seq![AUXL as int] + Seq::<int>::empty() =~= seq![AUXL as int]);
    lemma_version_word(0, 0, text);
    assert((framing::version_flags(0, 0) + text).skip(4) =~= text);
}

/// What a field holds of a number differs from it by whole turns of the field.
pub proof fn law_low_bits(n: int)
    ensures
        0 <= bytes::low32(n) < 0x1_0000_0000,
        (n - bytes::low32(n)) % 0x1_0000_0000 == 0,
        0 <= bytes::low16(n) < 0x1_0000,
        (n - bytes::low16(n)) % 0x1_0000 == 0,
{
}

/// A box of any length states its type, holds its payload, and states its whole
/// length as far as 32 bits hold it.
pub proof fn law_box_states_its_length(kind: u32, payload: Seq<u8>)
    ensures
        ({
            let whole = framing::mp4_box(kind, payload);
            &&& whole.len() == 8 + payload.len()
            &&& (whole.len() - bytes::u32_at(whole, 0)) % 0x1_0000_0000 == 0
            &&& bytes::u32_at(whole, 4) == kind
            &&& whole.skip(8) == payload
        }),
{
    broadcast use {framing::group_framing, bytes::group_fields};

    reveal(framing::mp4_box);
    assert(framing::mp4_box(kind, payload).skip(8) =~= payload);
}

/// The length of every sample, however long, is stated as far as 32 bits hold it.
pub proof fn law_sample_lengths(samples: Seq<Seq<u8>>, i: int)
    requires
        0 <= i < samples.len(),
    ensures
        ({
            let stsz = navigation::payload(sample_table::stsz_box(samples));
            (samples[i].len() - bytes::u32_at(stsz, 12 + 4 * i)) % 0x1_0000_0000 == 0
        }),
{
    broadcast use {framing::group_framing, navigation::lemma_payload};

    let nothing = Seq::<u8>::empty();
    let sizes = sample_table::sizes(samples);
    let before = framing::version_flags(0, 0) + (bytes::be32(0) + bytes::be32(
        bytes::low32(samples.len() as int),
    ));
    assert(navigation::payload(sample_table::stsz_box(samples)) == before + (bytes::be32_table(
        sizes,
    ) + nothing)) by {
        reveal(sample_table::stsz_box);
    }
    bytes::lemma_be32_table_at(before, sizes, nothing, i);
}

/// In a file of any length the still item and each track are said to start where
/// their data starts, counted from the file's end, and the item to be as long as
/// the first frame, as far as 32 bits hold it.
pub proof fn law_offsets(sequence: SequenceView) -> (offsets: (u32, u32))
    ensures
        sequence.file() == sequence.with_offsets(offsets.0, offsets.0, offsets.1),
        ({
            let alpha = sequence.file().len() - bytes::concat(sequence.alpha_samples()).len();
            let color = alpha - bytes::concat(sequence.color_samples()).len();
            &&& (color - offsets.0) % 0x1_0000_0000 == 0
            &&& (alpha - offsets.1) % 0x1_0000_0000 == 0
        }),
        sequence.frames.len() > 0 ==> (sequence.frames[0].color.len() - sequence.item().len)
            % 0x1_0000_0000 == 0,
{
    broadcast use framing::group_framing;

    let color = bytes::low32(sequence.color_start());
    let alpha = bytes::low32(sequence.alpha_start());
    navigation::lemma_head_len(sequence, color, alpha);
    assert(sequence.file() =~= sequence.with_offsets(color, color, alpha));
    assert(sequence.mdat().len() == 8 + bytes::concat(sequence.color_samples()).len()
        + bytes::concat(sequence.alpha_samples()).len()) by {
        reveal(SequenceView::mdat);
    }
    (color, alpha)
}

} // verus!
