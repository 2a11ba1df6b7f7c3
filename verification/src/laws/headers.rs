//! The headers: timing, plays and size.
use vstd::prelude::*;

use crate::boxes::ClapBox;
use crate::bytes;
use crate::fourcc::{EDTS, ELST};
use crate::framing;
use crate::laws::samples;
use crate::navigation;
use crate::presentation;
use crate::presentation::Presentation;
use crate::reader;
use crate::reader::Plays;
use crate::sequence;
use crate::sequence::SequenceView;
use crate::track;
use crate::track::TrackView;

verus! {

/// Every track counts in the timescale that was set, and states as its media's
/// duration that of the frames together, however often the sequence plays.
pub proof fn law_timing_reads_back(sequence: SequenceView, k: nat)
    requires
        sequence.file().len() <= u32::MAX,
        navigation::has_track(sequence, k),
    ensures
        reader::timescale(sequence.file(), k) == Some(sequence.image.timescale as int),
        reader::media_duration(sequence.file(), k) == Some(
            sequence::total_duration(sequence.frames),
        ),
{
    broadcast use framing::group_framing;

    navigation::lemma_track_tables(sequence, k);
    samples::lemma_few_frames(sequence);
    let timescale = sequence.image.timescale;
    let duration = sequence.media_duration();
    let mdhd = navigation::payload(track::mdhd_box(timescale, duration));
    let head = framing::version_flags(1, 0) + (bytes::be64(0) + bytes::be64(0));
    let tail = bytes::be16(0x55C4) + bytes::be16(0);
    assert(mdhd == head + (bytes::be32(timescale) + (bytes::be64(duration) + tail))) by {
        broadcast use navigation::lemma_payload;

        reveal(track::mdhd_box);
    }
    framing::lemma_version_first(
        1,
        0,
        bytes::be64(0) + bytes::be64(0) + (bytes::be32(timescale) + (bytes::be64(duration) + tail)),
    );
    assert(mdhd[0] == 1);
    bytes::lemma_u32_at(head, timescale, bytes::be64(duration) + tail);
    assert(mdhd == (head + bytes::be32(timescale)) + (bytes::be64(duration) + tail));
    bytes::lemma_u64_at(head + bytes::be32(timescale), duration, tail);
}

/// The fields of a track header.
pub proof fn lemma_tkhd_fields(t: TrackView)
    ensures
        ({
            let tkhd = navigation::payload(track::tkhd_box(t));
            &&& tkhd[0] == 1
            &&& bytes::u32_at(tkhd, 20) == t.id
            &&& bytes::u64_at(tkhd, 28) == presentation::presented_duration(t.presented, t.duration)
            &&& bytes::u32_at(tkhd, 88) == presentation::fixed_16_16(
                presentation::shown_width(t.width, t.clap),
            )
            &&& bytes::u32_at(tkhd, 92) == presentation::fixed_16_16(
                presentation::shown_height(t.height, t.clap),
            )
        }),
{
    broadcast use {framing::group_framing, bytes::lemma_be32_table_len};

    let flags: u32 = if t.is_alpha {
        1
    } else {
        3
    };
    let duration = presentation::presented_duration(t.presented, t.duration);
    let width = presentation::fixed_16_16(presentation::shown_width(t.width, t.clap));
    let height = presentation::fixed_16_16(presentation::shown_height(t.height, t.clap));
    let nothing = Seq::<u8>::empty();
    let tkhd = navigation::payload(track::tkhd_box(t));
    let head = framing::version_flags(1, flags) + (bytes::be64(0) + bytes::be64(0) + bytes::be32(
        t.id,
    ) + bytes::be32(0));
    let middle = bytes::zeros(8) + bytes::be16(0) + bytes::be16(0) + bytes::be16(0) + bytes::be16(0)
        + track::identity_matrix();
    assert(track::identity_matrix().len() == 36) by {
        reveal(track::identity_matrix);
    }
    assert(tkhd == head + (bytes::be64(duration) + (middle + (bytes::be32(width) + bytes::be32(
        height,
    ))))) by {
        broadcast use navigation::lemma_payload;

        reveal(track::tkhd_box);
    }
    framing::lemma_version_first(
        1,
        flags,
        bytes::be64(0) + bytes::be64(0) + bytes::be32(t.id) + bytes::be32(0) + (bytes::be64(
            duration,
        ) + (middle + (bytes::be32(width) + bytes::be32(height)))),
    );
    assert(tkhd[0] == 1);
    bytes::lemma_u64_at(head, duration, middle + (bytes::be32(width) + bytes::be32(height)));
    let before_id = framing::version_flags(1, flags) + (bytes::be64(0) + bytes::be64(0));
    let after_id = bytes::be32(0) + (bytes::be64(duration) + (middle + (bytes::be32(width)
        + bytes::be32(height))));
    assert(tkhd == before_id + (bytes::be32(t.id) + after_id));
    bytes::lemma_u32_at(before_id, t.id, after_id);
    let before_width = head + (bytes::be64(duration) + middle);
    assert(tkhd == before_width + (bytes::be32(width) + bytes::be32(height)));
    bytes::lemma_u32_at(before_width, width, bytes::be32(height));
    assert(tkhd == (before_width + bytes::be32(width)) + (bytes::be32(height) + nothing));
    bytes::lemma_u32_at(before_width + bytes::be32(width), height, nothing);
}

/// The fields of an edit list: it repeats, and its segment is the whole media.
proof fn lemma_elst_fields(media_duration: u64)
    ensures
        ({
            let elst = reader::inside(
                Some(navigation::payload(track::edts_box(media_duration))),
                ELST,
            );
            &&& elst is Some
            &&& elst->0[3] == 1
            &&& bytes::u32_at(elst->0, 4) == 1
            &&& reader::segment(elst->0) == media_duration
        }),
{
    broadcast use {framing::group_framing, reader::group_reader};

    let rate = bytes::be16(1) + bytes::be16(0);
    if media_duration <= u32::MAX {
        let segment = media_duration as u32;
        let head = framing::version_flags(0, 1) + bytes::be32(1);
        let elst = head + (bytes::be32(segment) + (bytes::be32(0) + rate));
        assert(navigation::payload(track::edts_box(media_duration)) == framing::mp4_box(ELST, elst))
            by {
            broadcast use navigation::lemma_payload;

            reveal(track::edts_box);
        }
        assert(elst[0] == 0 && elst[3] == 1) by {
            reveal(framing::version_flags);
        }
        bytes::lemma_u32_at(
            framing::version_flags(0, 1),
            1,
            bytes::be32(segment) + (bytes::be32(0) + rate),
        );
        bytes::lemma_u32_at(head, segment, bytes::be32(0) + rate);
    } else {
        let head = framing::version_flags(1, 1) + bytes::be32(1);
        let elst = head + (bytes::be64(media_duration) + (bytes::be64(0) + rate));
        assert(navigation::payload(track::edts_box(media_duration)) == framing::mp4_box(ELST, elst))
            by {
            broadcast use navigation::lemma_payload;

            reveal(track::edts_box);
        }
        assert(elst[0] == 1 && elst[3] == 1) by {
            reveal(framing::version_flags);
        }
        bytes::lemma_u32_at(
            framing::version_flags(1, 1),
            1,
            bytes::be64(media_duration) + (bytes::be64(0) + rate),
        );
        bytes::lemma_u64_at(head, media_duration, bytes::be64(0) + rate);
    }
}

/// The fields of the movie header.
proof fn lemma_mvhd_fields(timescale: u32, duration: u64, next_track_id: u32)
    ensures
        ({
            let mvhd = navigation::payload(track::mvhd_box(timescale, duration, next_track_id));
            &&& mvhd[0] == 1
            &&& bytes::u32_at(mvhd, 20) == timescale
            &&& bytes::u64_at(mvhd, 24) == duration
            &&& bytes::u32_at(mvhd, 108) == next_track_id
        }),
{
    broadcast use {framing::group_framing, bytes::lemma_be32_table_len};

    let mvhd = navigation::payload(track::mvhd_box(timescale, duration, next_track_id));
    let head = framing::version_flags(1, 0) + (bytes::be64(0) + bytes::be64(0) + bytes::be32(
        timescale,
    ));
    let middle = bytes::be32(0x0001_0000) + bytes::be16(0x0100) + bytes::zeros(10)
        + track::identity_matrix() + bytes::zeros(24);
    let nothing = Seq::<u8>::empty();
    assert(track::identity_matrix().len() == 36) by {
        reveal(track::identity_matrix);
    }
    assert(mvhd == head + (bytes::be64(duration) + (middle + bytes::be32(next_track_id)))) by {
        broadcast use navigation::lemma_payload;

        reveal(track::mvhd_box);
    }
    framing::lemma_version_first(
        1,
        0,
        bytes::be64(0) + bytes::be64(0) + bytes::be32(timescale) + (bytes::be64(duration) + (middle
            + bytes::be32(next_track_id))),
    );
    assert(mvhd[0] == 1);
    bytes::lemma_u64_at(head, duration, middle + bytes::be32(next_track_id));
    let before_timescale = framing::version_flags(1, 0) + (bytes::be64(0) + bytes::be64(0));
    let after_timescale = bytes::be64(duration) + (middle + bytes::be32(next_track_id));
    assert(mvhd == before_timescale + (bytes::be32(timescale) + after_timescale));
    bytes::lemma_u32_at(before_timescale, timescale, after_timescale);
    let before = head + (bytes::be64(duration) + middle);
    assert(mvhd == before + (bytes::be32(next_track_id) + nothing));
    bytes::lemma_u32_at(before, next_track_id, nothing);
}

/// The movie counts in the timescale that was set, and is presented as long as
/// each of its tracks. The tracks are numbered from one, and the movie offers
/// the next number for another track.
pub proof fn law_movie_agrees_with_tracks(sequence: SequenceView, k: nat)
    requires
        sequence.file().len() <= u32::MAX,
        navigation::has_track(sequence, k),
    ensures
        reader::movie_timescale(sequence.file()) == Some(sequence.image.timescale as int),
        reader::movie_duration(sequence.file()) is Some,
        reader::movie_duration(sequence.file()) == reader::track_duration(sequence.file(), k),
        reader::track_id(sequence.file(), k) == Some(k as int + 1),
        reader::next_track_id(sequence.file()) == Some(
            if sequence.has_alpha() {
                3int
            } else {
                2
            },
        ),
{
    navigation::lemma_file(sequence);
    navigation::lemma_track_tables(sequence, k);
    lemma_tkhd_fields(navigation::nth_track(sequence, k));
    lemma_mvhd_fields(
        sequence.image.timescale,
        presentation::presented_duration(sequence.presented(), sequence.media_duration()),
        if sequence.has_alpha() {
            3
        } else {
            2
        },
    );
}

/// The segment of every edit list is one pass over the media, however long.
pub proof fn law_segment_is_one_pass(sequence: SequenceView, k: nat)
    requires
        sequence.file().len() <= u32::MAX,
        navigation::has_track(sequence, k),
    ensures
        match reader::inside(reader::inside(reader::track(sequence.file(), k), EDTS), ELST) {
            Some(elst) => reader::media_duration(sequence.file(), k) == Some(
                reader::segment(elst),
            ),
            None => sequence.image.loop_count == 1,
        },
{
    let t = navigation::nth_track(sequence, k);
    navigation::lemma_track_tables(sequence, k);
    law_timing_reads_back(sequence, k);
    samples::lemma_few_frames(sequence);
    lemma_elst_fields(t.duration);
}

/// A total of `count` times `media` is presented as such, and divides back.
proof fn lemma_repeats(count: u32, media: u64)
    requires
        count > 1,
        media > 0,
        count * media < u64::MAX,
    ensures
        presentation::presentation(count, media) == Presentation::Repeats((count * media) as u64),
        0 <= count * media < presentation::INDEFINITE_DURATION,
        (count * media) / (media as int) == count,
{
    assert((count * media) / (media as int) == count && 0 <= count * media) by (nonlinear_arith)
        requires
            media > 0,
    ;
}

/// How a track plays, from how it is presented.
proof fn lemma_plays(sequence: SequenceView, k: nat)
    requires
        sequence.file().len() <= u32::MAX,
        navigation::has_track(sequence, k),
    ensures
        reader::plays(sequence.file(), k) == (match sequence.presented() {
            Presentation::Once => Some(Plays::Times(1)),
            Presentation::Forever => Some(Plays::Forever),
            Presentation::Repeats(total) => if total == presentation::INDEFINITE_DURATION {
                Some(Plays::Forever)
            } else if sequence.media_duration() == 0 {
                None
            } else {
                Some(Plays::Times(total as int / sequence.media_duration() as int))
            },
        }),
{
    let t = navigation::nth_track(sequence, k);
    navigation::lemma_track_tables(sequence, k);
    lemma_tkhd_fields(t);
    lemma_elst_fields(t.duration);
}

/// A count of plays reads back: zero as forever, and any other as itself.
///
/// A reader finds a count above one by dividing by the media's duration, which
/// must not be zero, and the total must be less than what means forever.
pub proof fn law_plays_read_back(sequence: SequenceView, k: nat)
    requires
        sequence.file().len() <= u32::MAX,
        navigation::has_track(sequence, k),
        sequence.image.loop_count > 1 ==> {
            &&& sequence::total_duration(sequence.frames) > 0
            &&& sequence.image.loop_count * sequence::total_duration(sequence.frames) < u64::MAX
        },
    ensures
        reader::plays(sequence.file(), k) == Some(
            if sequence.image.loop_count == 0 {
                Plays::Forever
            } else {
                Plays::Times(sequence.image.loop_count as int)
            },
        ),
{
    lemma_plays(sequence, k);
    samples::lemma_few_frames(sequence);
    if sequence.image.loop_count > 1 {
        lemma_repeats(sequence.image.loop_count, sequence.media_duration());
    }
}

/// A count so large that the total cannot be stated plays forever.
pub proof fn law_uncountable_plays_are_forever(sequence: SequenceView, k: nat)
    requires
        sequence.file().len() <= u32::MAX,
        navigation::has_track(sequence, k),
        sequence.image.loop_count > 1,
        sequence.image.loop_count * sequence::total_duration(sequence.frames) >= u64::MAX,
    ensures
        reader::plays(sequence.file(), k) == Some(Plays::Forever),
{
    lemma_plays(sequence, k);
    samples::lemma_few_frames(sequence);
}

/// A sequence that plays once has no edit list, and lasts as long as its media;
/// every other has one.
pub proof fn law_edit_list_only_where_it_repeats(sequence: SequenceView, k: nat)
    requires
        sequence.file().len() <= u32::MAX,
        navigation::has_track(sequence, k),
    ensures
        reader::inside(reader::track(sequence.file(), k), EDTS) is None
            <==> sequence.image.loop_count == 1,
        sequence.image.loop_count == 1 ==> reader::track_duration(sequence.file(), k)
            == reader::media_duration(sequence.file(), k),
{
    let t = navigation::nth_track(sequence, k);
    navigation::lemma_track_tables(sequence, k);
    samples::lemma_few_frames(sequence);
    lemma_tkhd_fields(t);
    law_timing_reads_back(sequence, k);
}

/// Every track states the size to show, which is the coded size unless a clean
/// aperture crops it.
pub proof fn law_shown_size_reads_back(sequence: SequenceView, k: nat)
    requires
        sequence.file().len() <= u32::MAX,
        navigation::has_track(sequence, k),
    ensures
        reader::shown_size(sequence.file(), k) == Some(
            (
                presentation::fixed_16_16(
                    presentation::shown_width(sequence.width, sequence.image.clap),
                ) as int,
                presentation::fixed_16_16(
                    presentation::shown_height(sequence.height, sequence.image.clap),
                ) as int,
            ),
        ),
{
    navigation::lemma_track_tables(sequence, k);
    lemma_tkhd_fields(navigation::nth_track(sequence, k));
}

/// A crop shows no more than was coded, and at least one pixel where there is any.
pub proof fn law_crop_stays_inside(width: u32, height: u32, clap: Option<ClapBox>)
    requires
        presentation::can_crop(width, height, clap),
    ensures
        presentation::shown_width(width, clap) <= width,
        presentation::shown_height(height, clap) <= height,
        width > 0 ==> presentation::shown_width(width, clap) > 0,
        height > 0 ==> presentation::shown_height(height, clap) > 0,
        clap is None ==> presentation::shown_width(width, clap) == width
            && presentation::shown_height(height, clap) == height,
{
}

/// A dimension of up to 65535 is stated exactly, a larger one as the largest
/// that can be, and none as more than a larger one.
pub proof fn law_fixed_point(a: u32, b: u32)
    ensures
        a <= 0xffff ==> presentation::fixed_16_16(a) == a * 0x1_0000,
        a > 0xffff ==> presentation::fixed_16_16(a) == u32::MAX,
        a <= b ==> presentation::fixed_16_16(a) <= presentation::fixed_16_16(b),
{
}

} // verus!
