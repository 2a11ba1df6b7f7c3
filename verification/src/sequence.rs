//! What a serialized sequence is: the bytes that settings and frames stand for.
use vstd::prelude::*;

use crate::animated::{AnimFrameView, AnimatedImageView};
use crate::bytes;
use crate::codec::CodecView;
use crate::fourcc::{MDAT, MOOV};
use crate::framing;
use crate::meta;
use crate::meta::{ItemView, ILOC_PLACEHOLDER};
use crate::presentation;
use crate::presentation::Presentation;
use crate::sample_table;
use crate::sample_table::STCO_PLACEHOLDER;
use crate::track;
use crate::track::TrackView;

verus! {

// ─── What the frames add up to ───────────────────────────────────────

/// Whether any frame has alpha data.
pub open spec fn any_alpha(frames: Seq<AnimFrameView>) -> bool {
    exists|i: int| 0 <= i < frames.len() && (#[trigger] frames[i]).alpha is Some
}

/// The duration of all frames together.
pub open spec fn total_duration(frames: Seq<AnimFrameView>) -> int
    decreases frames.len(),
{
    if frames.len() == 0 {
        0
    } else {
        total_duration(frames.drop_last()) + frames.last().duration
    }
}

/// The duration of each frame.
pub open spec fn durations(frames: Seq<AnimFrameView>) -> Seq<u32> {
    frames.map_values(|frame: AnimFrameView| frame.duration)
}

/// The color data of each frame.
pub open spec fn color_samples(frames: Seq<AnimFrameView>) -> Seq<Seq<u8>> {
    frames.map_values(|frame: AnimFrameView| frame.color)
}

/// A frame's sample in the alpha track: empty where it has no alpha data.
pub open spec fn alpha_sample(frame: AnimFrameView) -> Seq<u8> {
    match frame.alpha {
        Some(alpha) => alpha,
        None => Seq::empty(),
    }
}

/// The sample of each frame in the alpha track.
pub open spec fn alpha_samples(frames: Seq<AnimFrameView>) -> Seq<Seq<u8>> {
    frames.map_values(|frame: AnimFrameView| alpha_sample(frame))
}

/// The sync frames, counted from one.
pub open spec fn sync_samples(frames: Seq<AnimFrameView>) -> Seq<u32>
    decreases frames.len(),
{
    if frames.len() == 0 {
        Seq::empty()
    } else if frames.last().is_sync {
        sync_samples(frames.drop_last()).push(bytes::low32(frames.len() as int))
    } else {
        sync_samples(frames.drop_last())
    }
}

/// A prefix lasts no longer than the whole, and no frame longer than 32 bits can state.
pub proof fn lemma_total_duration_grows(frames: Seq<AnimFrameView>, n: int)
    requires
        0 <= n <= frames.len(),
    ensures
        0 <= total_duration(frames.take(n)) <= total_duration(frames) <= u32::MAX * frames.len(),
    decreases frames.len(),
{
    if n == frames.len() {
        assert(frames.take(n) =~= frames);
        if frames.len() > 0 {
            lemma_total_duration_grows(frames.drop_last(), frames.len() - 1);
            assert(frames.drop_last().take(frames.len() - 1) =~= frames.drop_last());
        }
    } else {
        lemma_total_duration_grows(frames.drop_last(), n);
        assert(frames.drop_last().take(n) =~= frames.take(n));
    }
}

/// Whether 64 bits can state the duration of all frames together, and 32 bits
/// the length of every run of equal durations. Up to 2^32 - 1 frames, both can.
pub open spec fn timing_fits(frames: Seq<AnimFrameView>) -> bool {
    ||| frames.len() <= u32::MAX
    ||| {
        &&& total_duration(frames) <= u64::MAX
        &&& sample_table::runs_fit(durations(frames))
    }
}

/// Where the timing fits, the total and every run can be stated.
pub proof fn lemma_timing_fits(frames: Seq<AnimFrameView>)
    requires
        timing_fits(frames),
    ensures
        0 <= total_duration(frames) <= u64::MAX,
        sample_table::runs_fit(durations(frames)),
{
    lemma_total_duration_grows(frames, frames.len() as int);
    sample_table::lemma_runs_bound(durations(frames));
    if frames.len() <= u32::MAX {
        assert(u32::MAX * frames.len() <= u64::MAX) by (nonlinear_arith)
            requires
                frames.len() <= u32::MAX,
        ;
    }
}

// ─── Codecs ──────────────────────────────────────────────────────────

/// How color samples are configured. An HEVC configuration makes them HEVC.
pub open spec fn color_codec(image: AnimatedImageView, seq_header: Seq<u8>) -> CodecView {
    match image.hevc_config {
        Some(config) => CodecView::Hevc { config },
        None => CodecView::Av1 { config: image.color_config, seq_header },
    }
}

/// How alpha samples are configured, in the codec that the color track chose.
pub open spec fn alpha_codec(
    image: AnimatedImageView,
    seq_header: Option<Seq<u8>>,
) -> Option<CodecView> {
    match image.hevc_config {
        Some(_) => match image.alpha_hevc_config {
            Some(config) => Some(CodecView::Hevc { config }),
            None => None,
        },
        None => match (image.alpha_config, seq_header) {
            (Some(config), Some(seq_header)) => Some(CodecView::Av1 { config, seq_header }),
            _ => None,
        },
    }
}

// ─── The file ────────────────────────────────────────────────────────

/// Everything that a file is made from.
pub struct SequenceView {
    pub image: AnimatedImageView,
    /// The coded size.
    pub width: u32,
    pub height: u32,
    pub frames: Seq<AnimFrameView>,
    /// The AV1 sequence header of the color frames.
    pub color_seq_header: Seq<u8>,
    /// The AV1 sequence header of the alpha frames.
    pub alpha_seq_header: Option<Seq<u8>>,
}

impl SequenceView {
    /// How the color samples are configured.
    pub open spec fn color_codec(self) -> CodecView {
        color_codec(self.image, self.color_seq_header)
    }

    /// How alpha samples are configured.
    pub open spec fn alpha_codec(self) -> Option<CodecView> {
        alpha_codec(self.image, self.alpha_seq_header)
    }

    /// An alpha track needs alpha data on the frames and a configuration to
    /// decode it against.
    pub open spec fn has_alpha(self) -> bool {
        any_alpha(self.frames) && self.alpha_codec() is Some
    }

    /// The media's duration.
    pub open spec fn media_duration(self) -> u64 {
        total_duration(self.frames) as u64
    }

    /// How long the media is presented.
    pub open spec fn presented(self) -> Presentation {
        presentation::presentation(self.image.loop_count, self.media_duration())
    }

    /// The samples of the color track.
    pub open spec fn color_samples(self) -> Seq<Seq<u8>> {
        color_samples(self.frames)
    }

    /// The samples of the alpha track: none where there is no such track.
    pub open spec fn alpha_samples(self) -> Seq<Seq<u8>> {
        if self.has_alpha() {
            alpha_samples(self.frames)
        } else {
            Seq::empty()
        }
    }

    /// The still item, which is the first frame.
    pub open spec fn item(self) -> ItemView {
        ItemView {
            width: self.width,
            height: self.height,
            codec: self.color_codec(),
            len: if self.frames.len() > 0 {
                bytes::low32(self.frames[0].color.len() as int)
            } else {
                0
            },
            colr: self.image.colr,
            clli: self.image.clli,
            mdcv: self.image.mdcv,
            clap: self.image.clap,
        }
    }

    /// The color track.
    pub open spec fn color_track(self) -> TrackView {
        TrackView {
            id: 1,
            width: self.width,
            height: self.height,
            timescale: self.image.timescale,
            duration: self.media_duration(),
            samples: self.color_samples(),
            durations: durations(self.frames),
            sync: sync_samples(self.frames),
            codec: self.color_codec(),
            colr: self.image.colr,
            clap: self.image.clap,
            is_alpha: false,
            presented: self.presented(),
        }
    }

    /// The alpha track, where there is one.
    pub open spec fn alpha_track(self) -> TrackView {
        TrackView {
            id: 2,
            samples: self.alpha_samples(),
            codec: self.alpha_codec()->0,
            colr: None,
            is_alpha: true,
            ..self.color_track()
        }
    }

    /// The movie header.
    pub open spec fn mvhd(self) -> Seq<u8> {
        track::mvhd_box(
            self.image.timescale,
            presentation::presented_duration(self.presented(), self.media_duration()),
            if self.has_alpha() {
                3
            } else {
                2
            },
        )
    }

    /// The `moov` box, the samples of the tracks at the given offsets.
    #[verifier::opaque]
    pub open spec fn moov(self, color_offset: u32, alpha_offset: u32) -> Seq<u8> {
        framing::mp4_box(
            MOOV,
            self.mvhd() + track::trak_box(self.color_track(), color_offset) + meta::optional(
                self.has_alpha(),
                track::trak_box(self.alpha_track(), alpha_offset),
            ),
        )
    }

    /// The file, with the offsets of the still item and of each track's samples.
    pub open spec fn with_offsets(
        self,
        item_offset: u32,
        color_offset: u32,
        alpha_offset: u32,
    ) -> Seq<u8> {
        meta::ftyp_box(self.color_codec()) + (meta::meta_box(self.item(), item_offset) + (
        self.moov(color_offset, alpha_offset) + self.mdat()))
    }

    /// Everything that precedes the media.
    pub open spec fn head(self, color_offset: u32, alpha_offset: u32) -> Seq<u8> {
        meta::ftyp_box(self.color_codec()) + meta::meta_box(self.item(), color_offset) + self.moov(
            color_offset,
            alpha_offset,
        )
    }

    /// The position of the first color sample: past the head, whose length no
    /// offset changes, and the media box's header.
    pub open spec fn color_start(self) -> int {
        self.head(0, 0).len() as int + 8
    }

    /// The position of the first alpha sample.
    pub open spec fn alpha_start(self) -> int {
        self.color_start() + bytes::concat(self.color_samples()).len()
    }

    /// The media box: all color samples, and then all alpha samples.
    pub open spec fn mdat(self) -> Seq<u8> {
        framing::mp4_box(
            MDAT,
            bytes::concat(self.color_samples()) + bytes::concat(self.alpha_samples()),
        )
    }

    /// The file.
    pub open spec fn file(self) -> Seq<u8> {
        self.head(bytes::low32(self.color_start()), bytes::low32(self.alpha_start())) + self.mdat()
    }

    /// Filling in the still item's offset gives the file with that offset.
    pub proof fn lemma_item_patched(self, at: int, offset: u32, color: u32, alpha: u32)
        requires
            0 <= at,
            at + 4 <= meta::meta_box(self.item(), ILOC_PLACEHOLDER).len(),
            bytes::patched(meta::meta_box(self.item(), ILOC_PLACEHOLDER), at, offset)
                == meta::meta_box(self.item(), offset),
        ensures
            bytes::patched(
                self.with_offsets(ILOC_PLACEHOLDER, color, alpha),
                meta::ftyp_box(self.color_codec()).len() + at,
                offset,
            ) == self.with_offsets(offset, color, alpha),
            meta::meta_box(self.item(), offset).len() == meta::meta_box(
                self.item(),
                ILOC_PLACEHOLDER,
            ).len(),
    {
        let ftyp = meta::ftyp_box(self.color_codec());
        let meta = meta::meta_box(self.item(), ILOC_PLACEHOLDER);
        let rest = self.moov(color, alpha) + self.mdat();
        bytes::lemma_patched_second(ftyp, meta + rest, ftyp.len() + at, offset);
        bytes::lemma_patched_first(meta, rest, at, offset);
        bytes::lemma_patched_len(meta, at, offset);
    }

    /// Filling in the color track's offset gives the file with that offset.
    pub proof fn lemma_color_patched(self, at: int, item: u32, offset: u32, alpha: u32)
        requires
            0 <= at,
            at + 4 <= track::trak_box(self.color_track(), STCO_PLACEHOLDER).len(),
            bytes::patched(track::trak_box(self.color_track(), STCO_PLACEHOLDER), at, offset)
                == track::trak_box(self.color_track(), offset),
        ensures
            bytes::patched(
                self.with_offsets(item, STCO_PLACEHOLDER, alpha),
                meta::ftyp_box(self.color_codec()).len() + meta::meta_box(self.item(), item).len()
                    + 8 + self.mvhd().len() + at,
                offset,
            ) == self.with_offsets(item, offset, alpha),
            self.moov(offset, alpha).len() == self.moov(STCO_PLACEHOLDER, alpha).len(),
            track::trak_box(self.color_track(), offset).len() == track::trak_box(
                self.color_track(),
                STCO_PLACEHOLDER,
            ).len(),
    {
        broadcast use framing::group_framing;

        reveal(SequenceView::moov);
        let ftyp = meta::ftyp_box(self.color_codec());
        let meta = meta::meta_box(self.item(), item);
        let trak = track::trak_box(self.color_track(), STCO_PLACEHOLDER);
        let tail = meta::optional(self.has_alpha(), track::trak_box(self.alpha_track(), alpha));
        let moov = self.moov(STCO_PLACEHOLDER, alpha);
        let in_moov = 8 + self.mvhd().len() + at;
        bytes::lemma_patched_second(
            ftyp,
            meta + (moov + self.mdat()),
            ftyp.len() + meta.len() + in_moov,
            offset,
        );
        bytes::lemma_patched_second(meta, moov + self.mdat(), meta.len() + in_moov, offset);
        bytes::lemma_patched_first(moov, self.mdat(), in_moov, offset);
        framing::lemma_patched_box(MOOV, self.mvhd() + (trak + tail), in_moov, offset);
        bytes::lemma_patched_second(self.mvhd(), trak + tail, in_moov - 8, offset);
        bytes::lemma_patched_first(trak, tail, at, offset);
        bytes::lemma_patched_len(trak, at, offset);
    }

    /// Filling in the alpha track's offset gives the file with that offset.
    pub proof fn lemma_alpha_patched(self, at: int, item: u32, color: u32, offset: u32)
        requires
            self.has_alpha(),
            0 <= at,
            at + 4 <= track::trak_box(self.alpha_track(), STCO_PLACEHOLDER).len(),
            bytes::patched(track::trak_box(self.alpha_track(), STCO_PLACEHOLDER), at, offset)
                == track::trak_box(self.alpha_track(), offset),
        ensures
            bytes::patched(
                self.with_offsets(item, color, STCO_PLACEHOLDER),
                meta::ftyp_box(self.color_codec()).len() + meta::meta_box(self.item(), item).len()
                    + 8 + self.mvhd().len() + track::trak_box(self.color_track(), color).len() + at,
                offset,
            ) == self.with_offsets(item, color, offset),
            self.moov(color, offset).len() == self.moov(color, STCO_PLACEHOLDER).len(),
    {
        broadcast use framing::group_framing;

        reveal(SequenceView::moov);
        let ftyp = meta::ftyp_box(self.color_codec());
        let meta = meta::meta_box(self.item(), item);
        let head = self.mvhd() + track::trak_box(self.color_track(), color);
        let trak = track::trak_box(self.alpha_track(), STCO_PLACEHOLDER);
        let moov = self.moov(color, STCO_PLACEHOLDER);
        let in_moov = 8 + head.len() + at;
        bytes::lemma_patched_second(
            ftyp,
            meta + (moov + self.mdat()),
            ftyp.len() + meta.len() + in_moov,
            offset,
        );
        bytes::lemma_patched_second(meta, moov + self.mdat(), meta.len() + in_moov, offset);
        bytes::lemma_patched_first(moov, self.mdat(), in_moov, offset);
        framing::lemma_patched_box(MOOV, head + trak, in_moov, offset);
        bytes::lemma_patched_second(head, trak, in_moov - 8, offset);
        bytes::lemma_patched_len(trak, at, offset);
    }
}

} // verus!
