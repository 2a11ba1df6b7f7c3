//! From what was given to what a reader finds: each law speaks of the settings
//! and the frames themselves, and of the file as it is read.
use vstd::prelude::*;

use crate::animated;
use crate::animated::{AnimFrame, AnimFrameView, AnimatedImageView};
use crate::boxes;
use crate::boxes::{ClapBox, ClliBox, ColrBox, MdcvBox};
use crate::bytes;
use crate::codec::CodecConfig;
use crate::fourcc::{
    AUXI, AV01, AV1C, AVIF, AVIS, CCST, CLAP, CLLI, COLR, EDTS, FTYP, HEIC, HEVC, HVC1, HVCC, ISO8,
    ISPE, MDAT, MDCV, MDIA, MIAF, MIF1, MSF1, NCLX, PIXI, TKHD, TREF,
};
use crate::framing;
use crate::hvcc;
use crate::hvcc::HvcCBox;
use crate::laws::coding;
use crate::laws::fields;
use crate::laws::headers;
use crate::laws::item;
use crate::laws::samples;
use crate::laws::tables;
use crate::meta;
use crate::navigation;
use crate::presentation;
use crate::reader;
use crate::sample_table;
use crate::sequence;
use crate::sequence::SequenceView;
use crate::track;
use crate::track::TrackView;

verus! {

// ─── Tracks ──────────────────────────────────────────────────────────

/// The tracks that a reader finds are those that the file was made of.
proof fn lemma_found_track(sequence: SequenceView, k: nat)
    requires
        sequence.file().len() <= u32::MAX,
        reader::track(sequence.file(), k) is Some,
    ensures
        navigation::has_track(sequence, k),
{
    navigation::lemma_file(sequence);
}

/// There is a color track always. There is an alpha track as soon as one frame,
/// whichever it is, has alpha data, and an alpha configuration of the file's
/// coding was given, for AV1 with a sequence header; and otherwise there is none.
/// There is never a third track.
pub proof fn law_alpha_track_is_there_when_given(sequence: SequenceView, i: int, k: nat)
    requires
        sequence.file().len() <= u32::MAX,
    ensures
        reader::track(sequence.file(), 0) is Some,
        0 <= i < sequence.frames.len() && sequence.frames[i].alpha is Some
            && sequence.image.hevc_config is Some && sequence.image.alpha_hevc_config is Some
            ==> reader::track(sequence.file(), 1) is Some,
        0 <= i < sequence.frames.len() && sequence.frames[i].alpha is Some
            && sequence.image.hevc_config is None && sequence.image.alpha_config is Some
            && sequence.alpha_seq_header is Some ==> reader::track(sequence.file(), 1) is Some,
        reader::track(sequence.file(), 1) is Some ==> {
            &&& exists|j: int|
                0 <= j < sequence.frames.len() && (#[trigger] sequence.frames[j]).alpha is Some
            &&& sequence.image.hevc_config is Some ==> sequence.image.alpha_hevc_config is Some
            &&& sequence.image.hevc_config is None ==> sequence.image.alpha_config is Some
                && sequence.alpha_seq_header is Some
        },
        k > 1 ==> reader::track(sequence.file(), k) is None,
        sequence.has_alpha() <==> reader::track(sequence.file(), 1) is Some,
        navigation::has_track(sequence, k) <==> reader::track(sequence.file(), k) is Some,
{
    navigation::lemma_file(sequence);
    assert(navigation::has_track(sequence, 0));
    if sequence.has_alpha() {
        assert(navigation::has_track(sequence, 1));
    }
    assert(!navigation::has_track(sequence, k) ==> reader::track(sequence.file(), k) is None);
    assert(!navigation::has_track(sequence, 1) ==> reader::track(sequence.file(), 1) is None);
}

/// Where there is an alpha track, the frame's alpha data is its sample, and
/// otherwise no byte of it is in the media.
pub proof fn law_alpha_data_is_where_the_track_says(sequence: SequenceView, i: nat)
    requires
        sequence.file().len() <= u32::MAX,
        reader::track(sequence.file(), 1) is Some,
        i < sequence.frames.len(),
    ensures
        sequence.frames[i as int].alpha is Some ==> reader::sample(sequence.file(), 1, i)
            == sequence.frames[i as int].alpha,
        sequence.frames[i as int].alpha is None ==> reader::sample(sequence.file(), 1, i) == Some(
            Seq::<u8>::empty(),
        ),
{
    lemma_found_track(sequence, 1);
    samples::law_alpha_reads_back(sequence, i);
}

// ─── Durations ───────────────────────────────────────────────────────

/// Each frame adds its own duration to the total, however many there are.
pub proof fn law_total_grows_by_each_frame(frames: Seq<AnimFrameView>, frame: AnimFrameView)
    ensures
        sequence::total_duration(Seq::empty()) == 0,
        sequence::total_duration(frames.push(frame)) == sequence::total_duration(frames)
            + frame.duration,
{
    assert(frames.push(frame).drop_last() =~= frames);
}

proof fn lemma_durations_before(sequence: SequenceView, k: nat, n: nat)
    requires
        sequence.file().len() <= u32::MAX,
        navigation::has_track(sequence, k),
        n <= sequence.frames.len(),
    ensures
        reader::durations_before(sequence.file(), k, n) == sequence::total_duration(
            sequence.frames.take(n as int),
        ),
    decreases n,
{
    if n > 0 {
        lemma_durations_before(sequence, k, (n - 1) as nat);
        tables::law_durations_read_back(sequence, k, (n - 1) as nat);
        assert(sequence.frames.take(n as int).drop_last() =~= sequence.frames.take(n - 1));
    }
}

/// The media lasts exactly as long as its samples together: the duration that a
/// track's media states is the sum of what its table says of every sample, and
/// there is a sample for every frame.
pub proof fn law_media_lasts_as_long_as_its_samples(sequence: SequenceView, k: nat)
    requires
        sequence.file().len() <= u32::MAX,
        reader::track(sequence.file(), k) is Some,
    ensures
        reader::sample_count(sequence.file(), k) == Some(sequence.frames.len() as int),
        reader::media_duration(sequence.file(), k) == Some(
            reader::durations_before(sequence.file(), k, sequence.frames.len()),
        ),
        forall|i: nat|
            i < sequence.frames.len() ==> #[trigger] reader::sample_duration(
                sequence.file(),
                k,
                i,
            ) == Some(sequence.frames[i as int].duration as int),
{
    lemma_found_track(sequence, k);
    samples::law_tracks(sequence);
    headers::law_timing_reads_back(sequence, k);
    lemma_durations_before(sequence, k, sequence.frames.len());
    assert(sequence.frames.take(sequence.frames.len() as int) =~= sequence.frames);
    assert forall|i: nat| i < sequence.frames.len() implies #[trigger] reader::sample_duration(
        sequence.file(),
        k,
        i,
    ) == Some(sequence.frames[i as int].duration as int) by {
        tables::law_durations_read_back(sequence, k, i);
    }
}

/// A track is presented for its media once per play, and the movie with it: for
/// all ones where it plays forever, or more often than 64 bits can state.
pub proof fn law_presented_for_every_play(sequence: SequenceView, k: nat)
    requires
        sequence.file().len() <= u32::MAX,
        reader::track(sequence.file(), k) is Some,
    ensures
        ({
            let media = reader::media_duration(sequence.file(), k)->0;
            let presented = reader::track_duration(sequence.file(), k)->0;
            let count = sequence.image.loop_count;
            &&& reader::media_duration(sequence.file(), k) is Some
            &&& reader::track_duration(sequence.file(), k) is Some
            &&& reader::movie_duration(sequence.file()) == Some(presented)
            &&& count == 0 ==> presented == u64::MAX
            &&& count == 1 ==> presented == media
            &&& count > 1 && count * media <= u64::MAX ==> presented == count * media
            &&& count > 1 && count * media > u64::MAX ==> presented == u64::MAX
        }),
{
    lemma_found_track(sequence, k);
    navigation::lemma_track_tables(sequence, k);
    samples::lemma_few_frames(sequence);
    headers::law_timing_reads_back(sequence, k);
    headers::law_movie_agrees_with_tracks(sequence, k);
    headers::lemma_tkhd_fields(navigation::nth_track(sequence, k));
}

/// How plays are presented: each play beyond the first adds the media once more,
/// until 64 bits cannot state it.
pub proof fn law_each_play_adds_the_media(count: u32, media: u64)
    ensures
        presentation::presentation(count, media) == presentation::Presentation::Once <==> count
            == 1,
        count >= 1 && count * media <= u64::MAX ==> presentation::presented_duration(
            presentation::presentation(count, media),
            media,
        ) == count * media,
        count == 0 || count > 1 && count * media > u64::MAX ==> presentation::presentation(
            count,
            media,
        ) == presentation::Presentation::Forever,
        presentation::presented_duration(presentation::Presentation::Forever, media) == u64::MAX,
{
    if count == 1 {
        assert(count * media == media);
    }
}

// ─── Size ────────────────────────────────────────────────────────────

/// Whether `side` pixels of a coded side are those wholly inside an aperture of
/// `n / d`: at least one, no more than are coded, and all of them where there is
/// no denominator.
pub open spec fn is_crop(side: int, n: u32, d: u32, coded: u32) -> bool {
    &&& d == 0 ==> side == coded
    &&& d > 0 && n < d ==> side == 1
    &&& d > 0 && n >= (coded + 1) * d ==> side == coded
    &&& d > 0 && d <= n < (coded + 1) * d ==> side * d <= n < (side + 1) * d
}

/// Whether a fixed-point field states a side, or the most that it can.
pub open spec fn states_side(field: int, side: int) -> bool {
    &&& side < 0x1_0000 ==> field == side * 0x1_0000
    &&& side >= 0x1_0000 ==> field == u32::MAX
}

/// What is shown of a side is what lies wholly inside the aperture, however
/// large the side is.
pub proof fn law_crop_is_what_lies_inside(n: u32, d: u32, coded: u32)
    ensures
        is_crop(presentation::cropped(n, d, coded) as int, n, d, coded),
{
    if d > 0 {
        let whole = n as int / d as int;
        assert(whole * d <= n < (whole + 1) * d) by (nonlinear_arith)
            requires
                d > 0,
                whole == n as int / d as int,
        ;
        assert(whole < 1 <==> n < d) by (nonlinear_arith)
            requires
                d > 0,
                whole * d <= n < (whole + 1) * d,
        ;
        assert(whole > coded <==> n >= (coded + 1) * d) by (nonlinear_arith)
            requires
                d > 0,
                whole * d <= n < (whole + 1) * d,
        ;
    }
}

/// Every track header states the coded size where nothing is cropped, and
/// otherwise exactly the pixels of each side that lie wholly inside the aperture.
pub proof fn law_shown_size_is_what_lies_inside(sequence: SequenceView, k: nat)
    requires
        sequence.file().len() <= u32::MAX,
        reader::track(sequence.file(), k) is Some,
    ensures
        reader::shown_size(sequence.file(), k) is Some,
        ({
            let shown = reader::shown_size(sequence.file(), k)->0;
            match sequence.image.clap {
                None => {
                    &&& states_side(shown.0, sequence.width as int)
                    &&& states_side(shown.1, sequence.height as int)
                },
                Some(clap) => {
                    &&& exists|side: int| #[trigger]
                        is_crop(side, clap.width_n, clap.width_d, sequence.width) && states_side(
                            shown.0,
                            side,
                        )
                    &&& exists|side: int| #[trigger]
                        is_crop(side, clap.height_n, clap.height_d, sequence.height)
                            && states_side(shown.1, side)
                },
            }
        }),
{
    lemma_found_track(sequence, k);
    headers::law_shown_size_reads_back(sequence, k);
    if sequence.image.clap is Some {
        let clap = sequence.image.clap->0;
        law_crop_is_what_lies_inside(clap.width_n, clap.width_d, sequence.width);
        law_crop_is_what_lies_inside(clap.height_n, clap.height_d, sequence.height);
    }
}

// ─── Configurations ──────────────────────────────────────────────────

/// Each track's sample entry holds the configuration that was set for it, with
/// the sequence header that was given for it where it is AV1, and none of the
/// other coding. The item has the color track's.
pub proof fn law_configurations_are_those_set(sequence: SequenceView)
    requires
        sequence.file().len() <= u32::MAX,
    ensures
        sequence.image.hevc_config is None ==> {
            let config = Some(
                navigation::payload(
                    boxes::av1c_box(sequence.image.color_config, sequence.color_seq_header),
                ),
            );
            &&& reader::coding(sequence.file(), 0) == Some(AV01 as int)
            &&& reader::inside(reader::entry_boxes(sequence.file(), 0, AV01), AV1C) == config
            &&& reader::inside(reader::entry_boxes(sequence.file(), 0, AV01), HVCC) is None
            &&& reader::inside(reader::properties(sequence.file()), AV1C) == config
            &&& reader::inside(reader::properties(sequence.file()), HVCC) is None
            &&& reader::item_type(sequence.file()) == Some(AV01 as int)
        },
        sequence.image.hevc_config is Some ==> {
            let config = Some(
                navigation::payload(hvcc::hvcc_box(sequence.image.hevc_config->0)),
            );
            &&& reader::coding(sequence.file(), 0) == Some(HVC1 as int)
            &&& reader::inside(reader::entry_boxes(sequence.file(), 0, HVC1), HVCC) == config
            &&& reader::inside(reader::entry_boxes(sequence.file(), 0, HVC1), AV1C) is None
            &&& reader::inside(reader::properties(sequence.file()), HVCC) == config
            &&& reader::inside(reader::properties(sequence.file()), AV1C) is None
            &&& reader::item_type(sequence.file()) == Some(HVC1 as int)
        },
        reader::track(sequence.file(), 1) is Some && sequence.image.hevc_config is None ==> {
            &&& reader::coding(sequence.file(), 1) == Some(AV01 as int)
            &&& reader::inside(reader::entry_boxes(sequence.file(), 1, AV01), AV1C) == Some(
                navigation::payload(
                    boxes::av1c_box(
                        sequence.image.alpha_config->0,
                        sequence.alpha_seq_header->0,
                    ),
                ),
            )
            &&& reader::inside(reader::entry_boxes(sequence.file(), 1, AV01), HVCC) is None
        },
        reader::track(sequence.file(), 1) is Some && sequence.image.hevc_config is Some ==> {
            &&& reader::coding(sequence.file(), 1) == Some(HVC1 as int)
            &&& reader::inside(reader::entry_boxes(sequence.file(), 1, HVC1), HVCC) == Some(
                navigation::payload(hvcc::hvcc_box(sequence.image.alpha_hevc_config->0)),
            )
            &&& reader::inside(reader::entry_boxes(sequence.file(), 1, HVC1), AV1C) is None
        },
{
    coding::law_coding_reads_back(sequence, 0);
    item::law_properties_read_back(sequence, AV1C);
    item::law_properties_read_back(sequence, HVCC);
    item::law_item_type_reads_back(sequence);
    if reader::track(sequence.file(), 1) is Some {
        lemma_found_track(sequence, 1);
        coding::law_coding_reads_back(sequence, 1);
    }
}

// ─── Color ───────────────────────────────────────────────────────────

/// Whether a record is the color information of `colr`, field by field.
pub open spec fn is_color_record(record: Seq<u8>, colr: ColrBox) -> bool {
    &&& record.len() == 11
    &&& bytes::u32_at(record, 0) == NCLX
    &&& bytes::u16_at(record, 4) == colr.color_primaries
    &&& bytes::u16_at(record, 6) == colr.transfer_characteristics
    &&& bytes::u16_at(record, 8) == colr.matrix_coefficients
    &&& record[10] == (if colr.full_range_flag {
        0x80
    } else {
        0int
    })
}

/// Color information that was set, and differs in any field from what a reader
/// assumes, is a property of the item and stands in the color track's sample
/// entry, field by field. What a reader assumes anyway is stated nowhere.
pub proof fn law_color_that_differs_is_stated(sequence: SequenceView)
    requires
        sequence.file().len() <= u32::MAX,
    ensures
        ({
            let kind = if sequence.image.hevc_config is Some {
                HVC1
            } else {
                AV01
            };
            let on_item = reader::inside(reader::properties(sequence.file()), COLR);
            let on_track = reader::inside(reader::entry_boxes(sequence.file(), 0, kind), COLR);
            &&& reader::inside(reader::entry_boxes(sequence.file(), 1, kind), COLR) is None
            &&& match sequence.image.colr {
                Some(colr) => if colr.color_primaries != 1 || colr.transfer_characteristics != 13
                    || colr.matrix_coefficients != 6 || !colr.full_range_flag {
                    &&& on_item is Some && is_color_record(on_item->0, colr)
                    &&& on_track is Some && is_color_record(on_track->0, colr)
                } else {
                    on_item is None && on_track is None
                },
                None => on_item is None && on_track is None,
            }
        }),
{
    item::law_color_is_stated_alike(sequence);
    coding::law_color_is_stated_on_the_track(sequence);
    if sequence.image.colr is Some {
        item::law_color_information_reads_back(sequence.image.colr->0);
    }
}

// ─── Order ───────────────────────────────────────────────────────────

/// The properties of the item are its size, its configuration and its pixel
/// layout, and then the color, the light level, the mastering display and the
/// crop as far as they were set.
pub proof fn law_property_order(sequence: SequenceView)
    requires
        sequence.file().len() <= u32::MAX,
    ensures
        ({
            let config = if sequence.image.hevc_config is Some {
                HVCC
            } else {
                AV1C
            };
            let differs = sequence.image.colr is Some && {
                let colr = sequence.image.colr->0;
                colr.color_primaries != 1 || colr.transfer_characteristics != 13
                    || colr.matrix_coefficients != 6 || !colr.full_range_flag
            };
            let properties = reader::properties(sequence.file());
            &&& properties is Some
            &&& reader::is_tiled(properties->0)
            &&& reader::kinds(properties->0) == seq![ISPE as int, config as int, PIXI as int]
                + listed(differs, COLR) + listed(sequence.image.clli is Some, CLLI) + listed(
                sequence.image.mdcv is Some,
                MDCV,
            ) + listed(sequence.image.clap is Some, CLAP)
        }),
{
    item::law_properties_read_back(sequence, ISPE);
}

/// One type where it applies, and none where it does not.
pub open spec fn listed(applies: bool, kind: u32) -> Seq<int> {
    Seq::new(
        if applies {
            1
        } else {
            0
        },
        |i: int| kind as int,
    )
}

/// A sample entry holds its configuration, then what an alpha track carries, the
/// color of a color track, and the crop, as far as they apply, and at last its
/// constraints.
pub proof fn law_sample_entry_order(sequence: SequenceView, k: nat)
    requires
        sequence.file().len() <= u32::MAX,
        reader::track(sequence.file(), k) is Some,
    ensures
        ({
            let hevc = sequence.image.hevc_config is Some;
            let differs = sequence.image.colr is Some && {
                let colr = sequence.image.colr->0;
                colr.color_primaries != 1 || colr.transfer_characteristics != 13
                    || colr.matrix_coefficients != 6 || !colr.full_range_flag
            };
            let boxes = reader::entry_boxes(
                sequence.file(),
                k,
                if hevc {
                    HVC1
                } else {
                    AV01
                },
            );
            &&& boxes is Some
            &&& reader::is_tiled(boxes->0)
            &&& reader::kinds(boxes->0) == seq![
                if hevc {
                    HVCC as int
                } else {
                    AV1C as int
                },
            ] + listed(k == 1, AUXI) + listed(k == 0 && differs, COLR) + listed(
                sequence.image.clap is Some,
                CLAP,
            ) + seq![CCST as int]
        }),
{
    lemma_found_track(sequence, k);
    coding::law_entry_order(sequence, k);
}

/// Whatever a track is described by, its sample entry holds the color where it
/// was given and differs from what a reader assumes, the crop where it was given,
/// and what an auxiliary track carries where it is one, each of them once, and
/// claims that all pictures are intra-coded where every sample is a sync sample.
pub proof fn law_entry_of_any_track(t: TrackView)
    requires
        track::stsd_box(t).len() <= u32::MAX,
    ensures
        ({
            let differs = t.colr is Some && {
                let colr = t.colr->0;
                colr.color_primaries != 1 || colr.transfer_characteristics != 13
                    || colr.matrix_coefficients != 6 || !colr.full_range_flag
            };
            let stsd = navigation::payload(track::stsd_box(t));
            let kind = if t.codec is Hevc {
                HVC1
            } else {
                AV01
            };
            let boxes = reader::past(reader::inside(reader::past(Some(stsd), 8), kind), 78);
            let colr = reader::inside(boxes, COLR);
            let ccst = reader::inside(boxes, CCST);
            &&& boxes is Some
            &&& reader::is_tiled(boxes->0)
            &&& reader::kinds(boxes->0) == seq![
                if t.codec is Hevc {
                    HVCC as int
                } else {
                    AV1C as int
                },
            ] + listed(t.is_alpha, AUXI) + listed(differs, COLR) + listed(t.clap is Some, CLAP)
                + seq![CCST as int]
            &&& differs ==> colr is Some && is_color_record(colr->0, t.colr->0)
            &&& ccst is Some
            &&& ccst->0[4] >= 0x80 <==> t.sync.len() == t.samples.len()
        }),
{
    navigation::lemma_stsd(t);
    navigation::lemma_entry_kinds(t);
    navigation::lemma_entry(t, COLR);
    navigation::lemma_entry(t, CCST);
    fields::law_constraint_fields(track::all_intra(t));
    if t.colr is Some {
        item::law_color_information_reads_back(t.colr->0);
    }
}

/// Whatever a track is described by, it has an edit list unless it is presented
/// once, and a reference to another track where it is auxiliary.
pub proof fn law_boxes_of_any_track(t: TrackView, offset: u32)
    requires
        track::trak_box(t, offset).len() <= u32::MAX,
    ensures
        reader::is_tiled(navigation::payload(track::trak_box(t, offset))),
        reader::kinds(navigation::payload(track::trak_box(t, offset))) == seq![TKHD as int]
            + listed(!(t.presented is Once), EDTS) + seq![MDIA as int] + listed(t.is_alpha, TREF),
{
    navigation::lemma_trak(t, offset);
}

// ─── Properties ──────────────────────────────────────────────────────

/// The item is described by the size that was given, by the channels and the
/// depth that the color configuration says, and by the light level and the
/// mastering display that were set, field by field; what was not set is not there.
pub proof fn law_item_is_described_as_given(sequence: SequenceView)
    requires
        sequence.file().len() <= u32::MAX,
    ensures
        ({
            let properties = reader::properties(sequence.file());
            let ispe = reader::inside(properties, ISPE);
            let pixi = reader::inside(properties, PIXI);
            let clli = reader::inside(properties, CLLI);
            let mdcv = reader::inside(properties, MDCV);
            let gray = match sequence.image.hevc_config {
                Some(config) => config.chroma_format_idc == 0,
                None => sequence.image.color_config.monochrome,
            };
            &&& ispe is Some
            &&& bytes::u32_at(ispe->0, 4) == sequence.width
            &&& bytes::u32_at(ispe->0, 8) == sequence.height
            &&& pixi is Some
            &&& pixi->0[4] == (if gray {
                1int
            } else {
                3
            })
            &&& pixi->0.len() == 5 + pixi->0[4]
            &&& forall|i: int|
                5 <= i < pixi->0.len() ==> #[trigger] pixi->0[i] == (
                match sequence.image.hevc_config {
                    Some(config) => config.bit_depth_luma as int,
                    None => if sequence.image.color_config.twelve_bit {
                        12
                    } else if sequence.image.color_config.high_bitdepth {
                        10
                    } else {
                        8
                    },
                })
            &&& clli is Some <==> sequence.image.clli is Some
            &&& sequence.image.clli is Some ==> {
                &&& clli->0.len() == 4
                &&& bytes::u16_at(clli->0, 0) == sequence.image.clli->0.max_content_light_level
                &&& bytes::u16_at(clli->0, 2) == sequence.image.clli->0.max_pic_average_light_level
            }
            &&& mdcv is Some <==> sequence.image.mdcv is Some
            &&& sequence.image.mdcv is Some ==> mdcv == Some(
                navigation::payload(boxes::mdcv_box(sequence.image.mdcv->0)),
            )
        }),
{
    item::law_properties_read_back(sequence, ISPE);
    item::law_properties_read_back(sequence, PIXI);
    item::law_properties_read_back(sequence, CLLI);
    item::law_properties_read_back(sequence, MDCV);
    item::law_coded_size_reads_back(sequence.width, sequence.height);
    item::law_pixel_layout_reads_back(sequence.color_codec());
    if sequence.image.clli is Some {
        item::law_light_level_reads_back(sequence.image.clli->0);
    }
}

/// The crop that was set is in the item's properties and in every sample entry,
/// and without one there is none.
pub proof fn law_crop_is_stated_where_set(sequence: SequenceView, k: nat)
    requires
        sequence.file().len() <= u32::MAX,
        reader::track(sequence.file(), k) is Some,
    ensures
        ({
            let kind = if sequence.image.hevc_config is Some {
                HVC1
            } else {
                AV01
            };
            let on_item = reader::inside(reader::properties(sequence.file()), CLAP);
            let on_track = reader::inside(reader::entry_boxes(sequence.file(), k, kind), CLAP);
            match sequence.image.clap {
                Some(clap) => {
                    &&& on_item == Some(navigation::payload(boxes::clap_box(clap)))
                    &&& on_track == on_item
                },
                None => on_item is None && on_track is None,
            }
        }),
{
    lemma_found_track(sequence, k);
    item::law_item_is_cropped_like_the_tracks(sequence, k);
    coding::law_crop_reads_back(sequence, k);
}

// ─── Media ───────────────────────────────────────────────────────────

/// How far a track's samples reach, from where its chunk is.
proof fn lemma_reach(sequence: SequenceView, k: nat)
    requires
        sequence.file().len() <= u32::MAX,
        navigation::has_track(sequence, k),
    ensures
        reader::chunk_offset(sequence.file(), k) == Some(navigation::nth_start(sequence, k)),
        reader::all_sizes(sequence.file(), k) == Some(
            bytes::concat(navigation::nth_track(sequence, k).samples).len() as int,
        ),
{
    let all = navigation::nth_track(sequence, k).samples;
    navigation::lemma_file(sequence);
    navigation::lemma_track_tables(sequence, k);
    samples::lemma_stsz_fields(all);
    samples::lemma_stco_fields(navigation::nth_start(sequence, k) as u32);
    samples::lemma_sizes_before(
        navigation::payload(sample_table::stsz_box(all)),
        all,
        all.len(),
    );
    assert(all.take(all.len() as int) =~= all);
}

/// The color samples fill the media from its first byte on, the alpha samples
/// follow them, and with the last of them the media and the file end: no byte of
/// the media is of no sample, or of two.
pub proof fn law_samples_fill_the_media(sequence: SequenceView)
    requires
        sequence.file().len() <= u32::MAX,
    ensures
        ({
            let file = sequence.file();
            let media = reader::nth_box(file, MDAT, 0);
            let color = reader::chunk_offset(file, 0);
            let alpha = reader::chunk_offset(file, 1);
            &&& media is Some && color is Some
            &&& color->0 == file.len() - media->0.len()
            &&& reader::all_sizes(file, 0) is Some
            &&& reader::track(file, 1) is Some ==> {
                &&& alpha == Some(color->0 + reader::all_sizes(file, 0)->0)
                &&& reader::all_sizes(file, 1) is Some
                &&& alpha->0 + reader::all_sizes(file, 1)->0 == file.len()
            }
            &&& reader::track(file, 1) is None ==> color->0 + reader::all_sizes(file, 0)->0
                == file.len()
        }),
{
    navigation::lemma_file(sequence);
    samples::law_media_is_verbatim(sequence);
    lemma_reach(sequence, 0);
    law_alpha_track_is_there_when_given(sequence, 0, 1);
    if sequence.has_alpha() {
        lemma_reach(sequence, 1);
    }
}

// ─── What is given ───────────────────────────────────────────────────

/// A file is made from what [`serialize`](crate::AnimatedImage::serialize) is
/// given, as it is given: the settings, the size, every frame with its data, its
/// duration and its mark, and the sequence headers.
pub proof fn law_sequence_is_what_was_given(
    image: AnimatedImageView,
    width: u32,
    height: u32,
    frames: Seq<AnimFrame<'_>>,
    color_seq_header: Seq<u8>,
    alpha_seq_header: Option<&[u8]>,
    i: int,
)
    ensures
        ({
            let given = animated::sequence_view(
                image,
                width,
                height,
                frames,
                color_seq_header,
                alpha_seq_header,
            );
            &&& given.image == image
            &&& given.width == width
            &&& given.height == height
            &&& given.color_seq_header == color_seq_header
            &&& alpha_seq_header is None ==> given.alpha_seq_header is None
            &&& alpha_seq_header is Some ==> given.alpha_seq_header == Some(alpha_seq_header->0@)
            &&& given.frames.len() == frames.len()
            &&& 0 <= i < frames.len() ==> {
                &&& given.frames[i].color == frames[i].color@
                &&& frames[i].alpha is None ==> given.frames[i].alpha is None
                &&& frames[i].alpha is Some ==> given.frames[i].alpha == Some(frames[i].alpha->0@)
                &&& given.frames[i].duration == frames[i].duration
                &&& given.frames[i].is_sync == frames[i].is_sync
            }
        }),
{
}

/// An HEVC configuration is taken as it is, parameter set by parameter set.
pub proof fn law_hevc_config_is_what_was_given(config: HvcCBox, i: int)
    ensures
        config@.general_profile_space == config.general_profile_space,
        config@.general_tier_flag == config.general_tier_flag,
        config@.general_profile_idc == config.general_profile_idc,
        config@.general_profile_compatibility_flags == config.general_profile_compatibility_flags,
        config@.general_constraint_indicator_flags == config.general_constraint_indicator_flags,
        config@.general_level_idc == config.general_level_idc,
        config@.min_spatial_segmentation_idc == config.min_spatial_segmentation_idc,
        config@.parallelism_type == config.parallelism_type,
        config@.chroma_format_idc == config.chroma_format_idc,
        config@.bit_depth_luma == config.bit_depth_luma,
        config@.bit_depth_chroma == config.bit_depth_chroma,
        config@.avg_frame_rate == config.avg_frame_rate,
        config@.constant_frame_rate == config.constant_frame_rate,
        config@.num_temporal_layers == config.num_temporal_layers,
        config@.temporal_id_nested == config.temporal_id_nested,
        config@.nal_length_size == config.nal_length_size,
        config@.parameter_sets.len() == config.parameter_sets@.len(),
        0 <= i < config.parameter_sets@.len() ==> {
            let set = config.parameter_sets@[i];
            &&& config@.parameter_sets[i].nal_unit_type == set.nal_unit_type
            &&& config@.parameter_sets[i].array_completeness == set.array_completeness
            &&& config@.parameter_sets[i].data == set.data@
        },
{
}

/// A sequence of up to 2^32 - 1 frames can be written, whatever their durations
/// are, and a crop only asks that a side with a denominator has a pixel.
pub proof fn law_what_can_be_written(
    frames: Seq<AnimFrameView>,
    width: u32,
    height: u32,
    clap: Option<ClapBox>,
)
    ensures
        frames.len() <= u32::MAX ==> sequence::timing_fits(frames),
        frames.len() <= u32::MAX ==> sample_table::runs_fit(sequence::durations(frames)),
        clap is None ==> presentation::can_crop(width, height, clap),
        width > 0 && height > 0 ==> presentation::can_crop(width, height, clap),
        clap is Some && (clap->0.width_d == 0 || width > 0) && (clap->0.height_d == 0 || height > 0)
            ==> presentation::can_crop(width, height, clap),
{
    if frames.len() <= u32::MAX {
        sequence::lemma_timing_fits(frames);
    }
}

/// A new image counts milliseconds, plays forever, is 8-bit 4:2:0 AV1 without
/// alpha, and says nothing else.
pub proof fn law_new_image()
    ensures
        animated::default_image().timescale == 1000,
        animated::default_image().loop_count == 0,
        animated::default_image().color_config == boxes::default_av1c(),
        !boxes::default_av1c().high_bitdepth && !boxes::default_av1c().twelve_bit,
        !boxes::default_av1c().monochrome,
        boxes::default_av1c().chroma_subsampling_x && boxes::default_av1c().chroma_subsampling_y,
        animated::default_image().alpha_config is None,
        animated::default_image().hevc_config is None,
        animated::default_image().alpha_hevc_config is None,
        animated::default_image().colr is None,
        animated::default_image().clli is None,
        animated::default_image().mdcv is None,
        animated::default_image().clap is None,
{
}

// ─── Brands ──────────────────────────────────────────────────────────

/// The file type of a file, brand by brand.
pub proof fn law_file_type(sequence: SequenceView)
    requires
        sequence.file().len() <= u32::MAX,
    ensures
        ({
            let ftyp = reader::nth_box(sequence.file(), FTYP, 0);
            &&& ftyp is Some
            &&& bytes::u32_at(ftyp->0, 4) == 0
            &&& sequence.image.hevc_config is Some ==> {
                &&& ftyp->0.len() == 32
                &&& bytes::u32_at(ftyp->0, 0) == HEVC
                &&& reader::compatible_brand(ftyp->0, 0) == MIF1
                &&& reader::compatible_brand(ftyp->0, 1) == HEIC
                &&& reader::compatible_brand(ftyp->0, 2) == MIAF
                &&& reader::compatible_brand(ftyp->0, 3) == MSF1
                &&& reader::compatible_brand(ftyp->0, 4) == ISO8
                &&& reader::compatible_brand(ftyp->0, 5) == HEVC
            }
            &&& sequence.image.hevc_config is None ==> {
                &&& ftyp->0.len() == 28
                &&& bytes::u32_at(ftyp->0, 0) == AVIS
                &&& reader::compatible_brand(ftyp->0, 0) == AVIS
                &&& reader::compatible_brand(ftyp->0, 1) == AVIF
                &&& reader::compatible_brand(ftyp->0, 2) == MIF1
                &&& reader::compatible_brand(ftyp->0, 3) == MIAF
                &&& reader::compatible_brand(ftyp->0, 4) == ISO8
            }
        }),
{
    broadcast use {framing::group_framing, navigation::lemma_payload, bytes::group_fields};

    navigation::lemma_file(sequence);
    reveal(meta::ftyp_box);
}

/// A track is written from what it is described by, as it is.
pub proof fn law_track_is_what_was_given(
    id: u32,
    width: u32,
    height: u32,
    timescale: u32,
    duration: u64,
    frames: Seq<&[u8]>,
    durations: Seq<u32>,
    sync: Seq<u32>,
    codec: CodecConfig<'_>,
    colr: Option<&ColrBox>,
    clap: Option<&ClapBox>,
    is_alpha: bool,
    presented: presentation::Presentation,
    i: int,
)
    ensures
        ({
            let given = track::track_view(
                id,
                width,
                height,
                timescale,
                duration,
                frames,
                durations,
                sync,
                codec,
                colr,
                clap,
                is_alpha,
                presented,
            );
            &&& given.id == id
            &&& given.width == width
            &&& given.height == height
            &&& given.timescale == timescale
            &&& given.duration == duration
            &&& given.samples.len() == frames.len()
            &&& 0 <= i < frames.len() ==> given.samples[i] == frames[i]@
            &&& given.durations == durations
            &&& given.sync == sync
            &&& given.codec == codec@
            &&& colr is None ==> given.colr is None
            &&& colr is Some ==> given.colr == Some(*colr->0)
            &&& clap is None ==> given.clap is None
            &&& clap is Some ==> given.clap == Some(*clap->0)
            &&& given.is_alpha == is_alpha
            &&& given.presented == presented
        }),
{
}

/// The item is written from what it is described by, as it is.
pub proof fn law_item_is_what_was_given(
    width: u32,
    height: u32,
    codec: CodecConfig<'_>,
    len: u32,
    colr: Option<&ColrBox>,
    clli: Option<&ClliBox>,
    mdcv: Option<&MdcvBox>,
    clap: Option<&ClapBox>,
)
    ensures
        ({
            let given = meta::item_view(width, height, codec, len, colr, clli, mdcv, clap);
            &&& given.width == width
            &&& given.height == height
            &&& given.codec == codec@
            &&& given.len == len
            &&& colr is None ==> given.colr is None
            &&& colr is Some ==> given.colr == Some(*colr->0)
            &&& clli is None ==> given.clli is None
            &&& clli is Some ==> given.clli == Some(*clli->0)
            &&& mdcv is None ==> given.mdcv is None
            &&& mdcv is Some ==> given.mdcv == Some(*mdcv->0)
            &&& clap is None ==> given.clap is None
            &&& clap is Some ==> given.clap == Some(*clap->0)
        }),
{
}

/// A coding is the configuration that it was made of, with its sequence header
/// where it is AV1.
pub proof fn law_coding_is_what_was_given(codec: CodecConfig<'_>)
    ensures
        match codec {
            CodecConfig::Av1 { config, seq_header } => {
                &&& codec@.config_box() == boxes::av1c_box(*config, seq_header@)
                &&& codec@.sample_entry() == AV01
                &&& codec@.channels() == (if config.monochrome {
                    1int
                } else {
                    3
                })
                &&& codec@.alpha_urn() == "urn:mpeg:mpegB:cicp:systems:auxiliary:alpha"@
            },
            CodecConfig::Hevc { config } => {
                &&& codec@.config_box() == hvcc::hvcc_box(config@)
                &&& codec@.sample_entry() == HVC1
                &&& codec@.channels() == (if config.chroma_format_idc == 0 {
                    1int
                } else {
                    3
                })
                &&& codec@.depth() == config.bit_depth_luma
                &&& codec@.alpha_urn() == "urn:mpeg:hevc:2015:auxid:1"@
            },
        },
{
}

} // verus!
