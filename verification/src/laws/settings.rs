//! Which settings matter, and which do not.
use vstd::prelude::*;

use crate::animated::{AnimFrameView, AnimatedImageView};
use crate::boxes;
use crate::boxes::Av1CBox;
use crate::hvcc::HvcCBoxView;
use crate::meta;
use crate::sequence;
use crate::sequence::SequenceView;
use crate::track;
use crate::track::TrackView;

verus! {

/// Where the color track is HEVC, neither AV1 configuration and neither
/// sequence header leaves a trace in the file.
pub proof fn law_hevc_ignores_av1(
    sequence: SequenceView,
    color_config: Av1CBox,
    alpha_config: Option<Av1CBox>,
    color_seq_header: Seq<u8>,
    alpha_seq_header: Option<Seq<u8>>,
)
    requires
        sequence.image.hevc_config is Some,
    ensures
        (SequenceView {
            image: AnimatedImageView { color_config, alpha_config, ..sequence.image },
            color_seq_header,
            alpha_seq_header,
            ..sequence
        }).file() == sequence.file(),
{
    reveal(SequenceView::moov);
}

/// Where the color track is AV1, an HEVC configuration of the alpha track
/// leaves no trace in the file.
pub proof fn law_av1_ignores_alpha_hevc_config(
    sequence: SequenceView,
    alpha_hevc_config: Option<HvcCBoxView>,
)
    requires
        sequence.image.hevc_config is None,
    ensures
        (SequenceView {
            image: AnimatedImageView { alpha_hevc_config, ..sequence.image },
            ..sequence
        }).file() == sequence.file(),
{
    reveal(SequenceView::moov);
}

/// The frames without their alpha data.
pub open spec fn opaque_frames(frames: Seq<AnimFrameView>) -> Seq<AnimFrameView> {
    frames.map_values(|frame: AnimFrameView| AnimFrameView { alpha: None, ..frame })
}

proof fn lemma_opaque_frames(frames: Seq<AnimFrameView>)
    ensures
        sequence::total_duration(opaque_frames(frames)) == sequence::total_duration(frames),
        sequence::sync_samples(opaque_frames(frames)) == sequence::sync_samples(frames),
        sequence::durations(opaque_frames(frames)) == sequence::durations(frames),
        sequence::color_samples(opaque_frames(frames)) == sequence::color_samples(frames),
        !sequence::any_alpha(opaque_frames(frames)),
    decreases frames.len(),
{
    assert(sequence::durations(opaque_frames(frames)) =~= sequence::durations(frames));
    assert(sequence::color_samples(opaque_frames(frames)) =~= sequence::color_samples(frames));
    if frames.len() > 0 {
        lemma_opaque_frames(frames.drop_last());
        assert(opaque_frames(frames).drop_last() =~= opaque_frames(frames.drop_last()));
    }
}

/// Alpha data with nothing to decode it against is not an alpha track, and no
/// byte of it is written: the file is that of the frames without it.
pub proof fn law_alpha_needs_a_configuration(sequence: SequenceView)
    requires
        sequence.alpha_codec() is None,
    ensures
        !sequence.has_alpha(),
        sequence.file() == (SequenceView {
            frames: opaque_frames(sequence.frames),
            ..sequence
        }).file(),
{
    lemma_opaque_frames(sequence.frames);
    reveal(SequenceView::moov);
}

/// An alpha configuration with no frame to apply it to leaves no trace in the file.
pub proof fn law_alpha_needs_data(
    sequence: SequenceView,
    alpha_config: Option<Av1CBox>,
    alpha_hevc_config: Option<HvcCBoxView>,
    alpha_seq_header: Option<Seq<u8>>,
)
    requires
        !sequence::any_alpha(sequence.frames),
    ensures
        !sequence.has_alpha(),
        (SequenceView {
            image: AnimatedImageView { alpha_config, alpha_hevc_config, ..sequence.image },
            alpha_seq_header,
            ..sequence
        }).file() == sequence.file(),
{
    reveal(SequenceView::moov);
}

/// A track is the same with color information that a reader assumes anyway and
/// without any.
proof fn lemma_default_color(t: TrackView, u: TrackView, offset: u32)
    requires
        t == (TrackView { colr: t.colr, ..u }),
        !meta::states_colr(t.colr),
        !meta::states_colr(u.colr),
    ensures
        track::trak_box(t, offset) == track::trak_box(u, offset),
{
    assert(track::stsd_box(t) == track::stsd_box(u)) by {
        reveal(track::sample_entry_box);
        reveal(track::stsd_box);
    }
    assert(track::stbl_box(t, offset) == track::stbl_box(u, offset)) by {
        reveal(track::stbl_box);
    }
    assert(track::minf_box(t, offset) == track::minf_box(u, offset)) by {
        reveal(track::minf_box);
    }
    assert(track::mdia_box(t, offset) == track::mdia_box(u, offset)) by {
        reveal(track::mdia_box);
    }
    assert(track::tkhd_box(t) == track::tkhd_box(u)) by {
        reveal(track::tkhd_box);
    }
    reveal(track::trak_box);
}

/// Color information that a reader assumes anyway is not written.
pub proof fn law_default_color_is_unstated(sequence: SequenceView)
    ensures
        (SequenceView {
            image: AnimatedImageView { colr: Some(boxes::default_colr()), ..sequence.image },
            ..sequence
        }).file() == (SequenceView {
            image: AnimatedImageView { colr: None, ..sequence.image },
            ..sequence
        }).file(),
{
    let stated = SequenceView {
        image: AnimatedImageView { colr: Some(boxes::default_colr()), ..sequence.image },
        ..sequence
    };
    let unstated = SequenceView {
        image: AnimatedImageView { colr: None, ..sequence.image },
        ..sequence
    };
    let t = stated.color_track();
    let u = unstated.color_track();
    assert forall|offset: u32| #[trigger] track::trak_box(t, offset) == track::trak_box(
        u,
        offset,
    ) by {
        lemma_default_color(t, u, offset);
    }
    assert forall|color: u32, alpha: u32| #[trigger]
        stated.moov(color, alpha) == unstated.moov(color, alpha) by {
        reveal(SequenceView::moov);
        assert(track::trak_box(t, color) == track::trak_box(u, color));
    }
    assert forall|offset: u32| #[trigger]
        meta::meta_box(stated.item(), offset) == meta::meta_box(unstated.item(), offset) by {
        reveal(meta::ipco_box);
        reveal(meta::ipma_box);
        reveal(meta::iprp_box);
        reveal(meta::meta_box);
    }
    assert(stated.color_start() == unstated.color_start());
}

} // verus!
