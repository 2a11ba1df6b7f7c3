//! Animated AVIF and HEIC serialization.
//!
//! Takes pre-encoded frame data and produces a timed-sequence file with a
//! `ftyp + meta + moov + mdat` structure. The frames may be AV1-coded, giving
//! an `avis` file whose track holds `av01` samples, or HEVC-coded, giving an
//! `msf1`/`hevc` file whose track holds `hvc1` samples. Everything between is
//! the same either way, because it is container structure and not codec
//! structure.
use vstd::prelude::*;

use crate::boxes;
use crate::boxes::{Av1CBox, ClapBox, ClliBox, ColrBox, MdcvBox};
use crate::bytes;
use crate::bytes::{truncate_u32, write_bytes, write_u32_at};
use crate::codec::{CodecConfig, CodecView};
use crate::fourcc::{MDAT, MOOV};
use crate::framing;
use crate::framing::{begin_box, end_box};
use crate::hvcc::{HvcCBox, HvcCBoxView};
use crate::meta;
use crate::meta::{write_ftyp, write_meta, ILOC_PLACEHOLDER};
use crate::presentation;
use crate::presentation::Presentation;
use crate::sample_table;
use crate::sample_table::STCO_PLACEHOLDER;
use crate::sequence;
use crate::sequence::SequenceView;
use crate::track::{write_mvhd, write_track};

verus! {

// ─── Frames ──────────────────────────────────────────────────────────

/// A single pre-encoded animation frame.
#[derive(Clone)]
#[non_exhaustive]
pub struct AnimFrame<'a> {
    /// Encoded color data for this frame.
    pub color: &'a [u8],
    /// Encoded alpha data for this frame (if present).
    pub alpha: Option<&'a [u8]>,
    /// Duration in timescale ticks.
    pub duration: u32,
    /// Whether this is a sync (key) frame.
    pub is_sync: bool,
}

/// What an [`AnimFrame`] holds.
pub struct AnimFrameView {
    pub color: Seq<u8>,
    pub alpha: Option<Seq<u8>>,
    pub duration: u32,
    pub is_sync: bool,
}

/// What stands behind an optional slice.
pub open spec fn slice_value(o: Option<&[u8]>) -> Option<Seq<u8>> {
    match o {
        Some(s) => Some(s@),
        None => None,
    }
}

impl<'a> View for AnimFrame<'a> {
    type V = AnimFrameView;

    open spec fn view(&self) -> AnimFrameView {
        AnimFrameView {
            color: self.color@,
            alpha: slice_value(self.alpha),
            duration: self.duration,
            is_sync: self.is_sync,
        }
    }
}

impl<'a> AnimFrame<'a> {
    /// Create a frame with color data and duration. Alpha defaults to `None`, sync to `false`.
    pub fn new(color: &'a [u8], duration: u32) -> (frame: Self)
        ensures
            frame@ == (AnimFrameView { color: color@, alpha: None, duration, is_sync: false }),
    {
        AnimFrame { color, alpha: None, duration, is_sync: false }
    }

    /// Set alpha data for this frame.
    pub fn with_alpha(self, alpha: &'a [u8]) -> (frame: Self)
        ensures
            frame@ == (AnimFrameView { alpha: Some(alpha@), ..self@ }),
    {
        AnimFrame { alpha: Some(alpha), ..self }
    }

    /// Mark this frame as a sync (key) frame.
    pub fn with_sync(self, is_sync: bool) -> (frame: Self)
        ensures
            frame@ == (AnimFrameView { is_sync, ..self@ }),
    {
        AnimFrame { is_sync, ..self }
    }
}

// ─── Settings ────────────────────────────────────────────────────────

/// Builder for animated container serialization.
///
/// Holds codec configuration and optional metadata. Call [`serialize`](AnimatedImage::serialize)
/// with per-encode data (dimensions, frames, sequence headers) to produce the file.
pub struct AnimatedImage {
    timescale: u32,
    loop_count: u32,
    color_config: Av1CBox,
    alpha_config: Option<Av1CBox>,
    /// When set, frames are HEVC-coded and the AV1 configurations are unused.
    hevc_config: Option<HvcCBox>,
    alpha_hevc_config: Option<HvcCBox>,
    colr: Option<ColrBox>,
    clli: Option<ClliBox>,
    mdcv: Option<MdcvBox>,
    clap: Option<ClapBox>,
}

/// What an [`AnimatedImage`] holds.
pub struct AnimatedImageView {
    pub timescale: u32,
    pub loop_count: u32,
    pub color_config: Av1CBox,
    pub alpha_config: Option<Av1CBox>,
    pub hevc_config: Option<HvcCBoxView>,
    pub alpha_hevc_config: Option<HvcCBoxView>,
    pub colr: Option<ColrBox>,
    pub clli: Option<ClliBox>,
    pub mdcv: Option<MdcvBox>,
    pub clap: Option<ClapBox>,
}

/// What an optional HEVC configuration holds.
pub open spec fn hevc_value(o: Option<HvcCBox>) -> Option<HvcCBoxView> {
    match o {
        Some(config) => Some(config@),
        None => None,
    }
}

impl View for AnimatedImage {
    type V = AnimatedImageView;

    closed spec fn view(&self) -> AnimatedImageView {
        AnimatedImageView {
            timescale: self.timescale,
            loop_count: self.loop_count,
            color_config: self.color_config,
            alpha_config: self.alpha_config,
            hevc_config: hevc_value(self.hevc_config),
            alpha_hevc_config: hevc_value(self.alpha_hevc_config),
            colr: self.colr,
            clli: self.clli,
            mdcv: self.mdcv,
            clap: self.clap,
        }
    }
}

/// Milliseconds, playing forever, 8-bit 4:2:0, and no metadata.
pub open spec fn default_image() -> AnimatedImageView {
    AnimatedImageView {
        timescale: 1000,
        loop_count: 0,
        color_config: boxes::default_av1c(),
        alpha_config: None,
        hevc_config: None,
        alpha_hevc_config: None,
        colr: None,
        clli: None,
        mdcv: None,
        clap: None,
    }
}

impl Default for AnimatedImage {
    fn default() -> (image: Self)
        ensures
            image@ == default_image(),
    {
        AnimatedImage::new()
    }
}

impl AnimatedImage {
    /// Create with sensible defaults (timescale=1000ms, infinite loop, 8-bit 4:2:0).
    pub fn new() -> (image: Self)
        ensures
            image@ == default_image(),
    {
        AnimatedImage {
            timescale: 1000,
            loop_count: 0,
            color_config: Av1CBox::default(),
            alpha_config: None,
            hevc_config: None,
            alpha_hevc_config: None,
            colr: None,
            clli: None,
            mdcv: None,
            clap: None,
        }
    }

    /// Timescale in ticks per second. Default: 1000 (milliseconds).
    pub fn set_timescale(&mut self, timescale: u32) -> (image: &mut Self)
        ensures
            image@ == (AnimatedImageView { timescale, ..old(self)@ }),
            *final(self) == *final(image),
    {
        self.timescale = timescale;
        self
    }

    /// How many times the sequence plays. Zero means forever. Default: 0.
    ///
    /// A reader counts plays as the track's duration divided by the
    /// edit list's segment, so a finite count is written by stating a track
    /// duration that many times the media's, and forever by leaving the track
    /// duration indefinite.
    pub fn set_loop_count(&mut self, loop_count: u32) -> (image: &mut Self)
        ensures
            image@ == (AnimatedImageView { loop_count, ..old(self)@ }),
            *final(self) == *final(image),
    {
        self.loop_count = loop_count;
        self
    }

    /// AV1 codec configuration for the color track.
    pub fn set_color_config(&mut self, config: Av1CBox) -> (image: &mut Self)
        ensures
            image@ == (AnimatedImageView { color_config: config, ..old(self)@ }),
            *final(self) == *final(image),
    {
        self.color_config = config;
        self
    }

    /// AV1 codec configuration for the alpha track.
    pub fn set_alpha_config(&mut self, config: Av1CBox) -> (image: &mut Self)
        ensures
            image@ == (AnimatedImageView { alpha_config: Some(config), ..old(self)@ }),
            *final(self) == *final(image),
    {
        self.alpha_config = Some(config);
        self
    }

    /// HEVC codec configuration for the color track.
    ///
    /// Setting it makes the whole file HEVC: `hvc1` samples, an `msf1` brand,
    /// and the sequence-header arguments to [`serialize`](Self::serialize)
    /// ignored, since HEVC's parameter sets live in this record.
    pub fn set_hevc_config(&mut self, config: HvcCBox) -> (image: &mut Self)
        ensures
            image@ == (AnimatedImageView { hevc_config: Some(config@), ..old(self)@ }),
            *final(self) == *final(image),
    {
        self.hevc_config = Some(config);
        self
    }

    /// HEVC codec configuration for the alpha track.
    ///
    /// Only consulted when the color track is HEVC too. A file mixing codecs
    /// between its color and alpha tracks is not something any reader expects.
    pub fn set_alpha_hevc_config(&mut self, config: HvcCBox) -> (image: &mut Self)
        ensures
            image@ == (AnimatedImageView { alpha_hevc_config: Some(config@), ..old(self)@ }),
            *final(self) == *final(image),
    {
        self.alpha_hevc_config = Some(config);
        self
    }

    /// CICP color info (nclx).
    ///
    /// Stated on the color track as well as on the still item.
    pub fn set_colr(&mut self, colr: ColrBox) -> (image: &mut Self)
        ensures
            image@ == (AnimatedImageView { colr: Some(colr), ..old(self)@ }),
            *final(self) == *final(image),
    {
        self.colr = Some(colr);
        self
    }

    /// Content Light Level Information (HDR).
    pub fn set_clli(&mut self, clli: ClliBox) -> (image: &mut Self)
        ensures
            image@ == (AnimatedImageView { clli: Some(clli), ..old(self)@ }),
            *final(self) == *final(image),
    {
        self.clli = Some(clli);
        self
    }

    /// Mastering Display Color Volume (HDR).
    pub fn set_mdcv(&mut self, mdcv: MdcvBox) -> (image: &mut Self)
        ensures
            image@ == (AnimatedImageView { mdcv: Some(mdcv), ..old(self)@ }),
            *final(self) == *final(image),
    {
        self.mdcv = Some(mdcv);
        self
    }

    /// The region of each coded frame that is the picture.
    ///
    /// Needed whenever the coded size is not the size to show, which for HEVC
    /// is any picture smaller than a coding tree unit: the codec cannot code
    /// one, so the encoder pads and the container says where the real picture
    /// is. Written into the sample entry, and the track header then states the
    /// cropped size rather than the coded one.
    pub fn set_clean_aperture(&mut self, clap: ClapBox) -> (image: &mut Self)
        ensures
            image@ == (AnimatedImageView { clap: Some(clap), ..old(self)@ }),
            *final(self) == *final(image),
    {
        self.clap = Some(clap);
        self
    }
}

// ─── What the frames add up to ───────────────────────────────────────

/// What each of `frames` holds.
pub open spec fn frame_views(frames: Seq<AnimFrame<'_>>) -> Seq<AnimFrameView> {
    frames.map_values(|frame: AnimFrame<'_>| frame@)
}

/// Whether any frame has alpha data.
fn any_alpha(frames: &[AnimFrame<'_>]) -> (b: bool)
    ensures
        b == sequence::any_alpha(frame_views(frames@)),
{
    for i in 0..frames.len()
        invariant
            forall|k: int| 0 <= k < i ==> frame_views(frames@)[k].alpha is None,
    {
        if frames[i].alpha.is_some() {
            assert(frame_views(frames@)[i as int].alpha is Some);
            return true;
        }
    }
    false
}

/// The duration of all frames together.
fn total_duration(frames: &[AnimFrame<'_>]) -> (total: u64)
    requires
        sequence::total_duration(frame_views(frames@)) <= u64::MAX,
    ensures
        total == sequence::total_duration(frame_views(frames@)),
{
    let ghost views = frame_views(frames@);
    let mut total: u64 = 0;
    for i in 0..frames.len()
        invariant
            views == frame_views(frames@),
            sequence::total_duration(views) <= u64::MAX,
            total == sequence::total_duration(views.take(i as int)),
    {
        proof {
            assert(views.take(i + 1).drop_last() =~= views.take(i as int));
            sequence::lemma_total_duration_grows(views, i + 1);
        }
        total += frames[i].duration as u64;
    }
    assert(views.take(views.len() as int) =~= views);
    total
}

fn collect_durations(frames: &[AnimFrame<'_>]) -> (durations: Vec<u32>)
    ensures
        durations@ == sequence::durations(frame_views(frames@)),
{
    let mut durations: Vec<u32> = Vec::new();
    for i in 0..frames.len()
        invariant
            durations@ =~= sequence::durations(frame_views(frames@)).take(i as int),
    {
        durations.push(frames[i].duration);
    }
    durations
}

fn collect_color<'a>(frames: &[AnimFrame<'a>]) -> (samples: Vec<&'a [u8]>)
    ensures
        sample_table::sample_views(samples@) == sequence::color_samples(frame_views(frames@)),
{
    let mut samples: Vec<&'a [u8]> = Vec::new();
    for i in 0..frames.len()
        invariant
            samples@.len() == i,
            forall|k: int| 0 <= k < i ==> (#[trigger] samples@[k])@ == frames@[k].color@,
    {
        samples.push(frames[i].color);
    }
    assert(sample_table::sample_views(samples@) =~= sequence::color_samples(frame_views(frames@)));
    samples
}

fn collect_alpha<'a>(frames: &[AnimFrame<'a>]) -> (samples: Vec<&'a [u8]>)
    ensures
        sample_table::sample_views(samples@) == sequence::alpha_samples(frame_views(frames@)),
{
    let mut samples: Vec<&'a [u8]> = Vec::new();
    for i in 0..frames.len()
        invariant
            samples@.len() == i,
            forall|k: int|
                0 <= k < i ==> (#[trigger] samples@[k])@ == sequence::alpha_sample(frames@[k]@),
    {
        match frames[i].alpha {
            Some(alpha) => samples.push(alpha),
            None => {
                let nothing: &'a [u8] = &[];
                assert(nothing@ =~= Seq::empty());
                samples.push(nothing);
            },
        }
    }
    assert(sample_table::sample_views(samples@) =~= sequence::alpha_samples(frame_views(frames@)));
    samples
}

/// The sync frames, counted from one.
fn collect_sync(frames: &[AnimFrame<'_>]) -> (sync: Vec<u32>)
    ensures
        sync@ == sequence::sync_samples(frame_views(frames@)),
{
    let ghost views = frame_views(frames@);
    let mut sync: Vec<u32> = Vec::new();
    for i in 0..frames.len()
        invariant
            views == frame_views(frames@),
            sync@ == sequence::sync_samples(views.take(i as int)),
    {
        assert(views.take(i + 1).drop_last() =~= views.take(i as int));
        if frames[i].is_sync {
            sync.push(truncate_u32(i as u64 + 1));
        }
    }
    assert(views.take(views.len() as int) =~= views);
    sync
}

/// Append all of `samples`.
fn write_samples(out: &mut Vec<u8>, samples: &Vec<&[u8]>)
    ensures
        final(out)@ == old(out)@ + bytes::concat(sample_table::sample_views(samples@)),
{
    let ghost before = out@;
    let ghost all = sample_table::sample_views(samples@);
    assert(before + bytes::concat(all.take(0)) =~= before);
    for i in 0..samples.len()
        invariant
            all == sample_table::sample_views(samples@),
            out@ == before + bytes::concat(all.take(i as int)),
    {
        broadcast use bytes::lemma_append_twice;

        assert(all.take(i + 1).drop_last() =~= all.take(i as int));
        write_bytes(out, samples[i]);
    }
    assert(all.take(all.len() as int) =~= all);
}

// ─── Serialization ───────────────────────────────────────────────────

/// Everything that a file is made from, gathered.
pub open spec fn sequence_view(
    image: AnimatedImageView,
    width: u32,
    height: u32,
    frames: Seq<AnimFrame<'_>>,
    color_seq_header: Seq<u8>,
    alpha_seq_header: Option<&[u8]>,
) -> SequenceView {
    SequenceView {
        image,
        width,
        height,
        frames: frame_views(frames),
        color_seq_header,
        alpha_seq_header: slice_value(alpha_seq_header),
    }
}

/// What an optional configuration holds.
pub open spec fn codec_value(o: Option<CodecConfig<'_>>) -> Option<CodecView> {
    match o {
        Some(codec) => Some(codec@),
        None => None,
    }
}

impl AnimatedImage {
    /// How the color samples are configured.
    fn color_codec<'a>(&'a self, color_seq_header: &'a [u8]) -> (codec: CodecConfig<'a>)
        ensures
            codec@ == sequence::color_codec(self@, color_seq_header@),
    {
        match self.hevc_config.as_ref() {
            Some(config) => CodecConfig::Hevc { config },
            None => CodecConfig::Av1 { config: &self.color_config, seq_header: color_seq_header },
        }
    }

    /// How alpha samples are configured, in the codec that the color track chose.
    fn alpha_codec<'a>(&'a self, alpha_seq_header: Option<&'a [u8]>) -> (codec: Option<
        CodecConfig<'a>,
    >)
        ensures
            sequence::alpha_codec(self@, slice_value(alpha_seq_header)) == codec_value(codec),
    {
        match self.hevc_config.as_ref() {
            Some(_) => match self.alpha_hevc_config.as_ref() {
                Some(config) => Some(CodecConfig::Hevc { config }),
                None => None,
            },
            None => match (self.alpha_config.as_ref(), alpha_seq_header) {
                (Some(config), Some(seq_header)) => Some(CodecConfig::Av1 { config, seq_header }),
                _ => None,
            },
        }
    }

    /// Serialize an animated file from pre-encoded frame data.
    ///
    /// The sequence-header arguments describe AV1 frames and are ignored when
    /// [`set_hevc_config`](Self::set_hevc_config) has been called.
    #[verifier::spinoff_prover]
    #[verifier::rlimit(50)]
    pub fn serialize(
        &self,
        width: u32,
        height: u32,
        frames: &[AnimFrame<'_>],
        color_seq_header: &[u8],
        alpha_seq_header: Option<&[u8]>,
    ) -> (file: Vec<u8>)
        requires
            sequence::timing_fits(frame_views(frames@)),
            presentation::can_crop(width, height, self@.clap),
        ensures
            file@ == sequence_view(
                self@,
                width,
                height,
                frames@,
                color_seq_header@,
                alpha_seq_header,
            ).file(),
    {
        broadcast use framing::group_framing;

        let ghost sequence = sequence_view(
            self@,
            width,
            height,
            frames@,
            color_seq_header@,
            alpha_seq_header,
        );
        proof {
            sequence::lemma_timing_fits(sequence.frames);
        }
        let color_codec: CodecConfig<'_> = self.color_codec(color_seq_header);
        let alpha_codec: Option<CodecConfig<'_>> = self.alpha_codec(alpha_seq_header);
        let track_codec: Option<CodecConfig<'_>> = if any_alpha(frames) {
            alpha_codec
        } else {
            None
        };

        let media_duration: u64 = total_duration(frames);
        let durations: Vec<u32> = collect_durations(frames);
        let color_frames: Vec<&[u8]> = collect_color(frames);
        let alpha_frames: Vec<&[u8]> = if track_codec.is_some() {
            collect_alpha(frames)
        } else {
            Vec::new()
        };
        let sync_indices: Vec<u32> = collect_sync(frames);
        let first_frame_len: u32 = if frames.len() > 0 {
            truncate_u32(frames[0].color.len() as u64)
        } else {
            0
        };
        assert(sample_table::sample_views(color_frames@) == sequence.color_samples());
        assert(sample_table::sample_views(alpha_frames@) =~= sequence.alpha_samples());

        let mut out: Vec<u8> = Vec::new();
        write_ftyp(&mut out, color_codec);
        let ghost ftyp_end = out@.len();

        // The still item, and the position of its offset.
        let iloc_offset_pos: usize = write_meta(
            &mut out,
            width,
            height,
            color_codec,
            first_frame_len,
            self.colr.as_ref(),
            self.clli.as_ref(),
            self.mdcv.as_ref(),
            self.clap.as_ref(),
        );
        let ghost meta_end = out@.len();

        // The presented duration is what says how often the sequence plays: a
        // reader divides it by the edit list's segment. One play needs no edit
        // list at all.
        let presented: Presentation = Presentation::of(self.loop_count, media_duration);
        let next_track_id: u32 = if track_codec.is_some() {
            3
        } else {
            2
        };
        let moov_pos: usize = begin_box(&mut out, MOOV);
        write_mvhd(&mut out, self.timescale, media_duration, next_track_id, presented);
        let ghost color_trak_start = out@.len();
        let color_stco_pos: usize = write_track(
            &mut out,
            1,
            width,
            height,
            self.timescale,
            media_duration,
            color_frames.as_slice(),
            durations.as_slice(),
            sync_indices.as_slice(),
            color_codec,
            self.colr.as_ref(),
            self.clap.as_ref(),
            false,
            presented,
        );
        let ghost alpha_trak_start = out@.len();
        let alpha_stco_pos: Option<usize> = match track_codec {
            Some(codec) => Some(
                write_track(
                    &mut out,
                    2,
                    width,
                    height,
                    self.timescale,
                    media_duration,
                    alpha_frames.as_slice(),
                    durations.as_slice(),
                    sync_indices.as_slice(),
                    codec,
                    None,
                    self.clap.as_ref(),
                    true,
                    presented,
                ),
            ),
            None => None,
        };
        end_box(&mut out, moov_pos);
        assert(out@ == meta::ftyp_box(sequence.color_codec()) + (meta::meta_box(
            sequence.item(),
            ILOC_PLACEHOLDER,
        ) + sequence.moov(STCO_PLACEHOLDER, STCO_PLACEHOLDER))) by {
            reveal(SequenceView::moov);
        }

        let mdat_pos: usize = begin_box(&mut out, MDAT);
        let mdat_data_start: usize = out.len();
        write_samples(&mut out, &color_frames);
        let alpha_data_start: usize = out.len();
        write_samples(&mut out, &alpha_frames);
        end_box(&mut out, mdat_pos);

        // Fill in the offsets at the positions recorded when they were emitted.
        let color_offset: u32 = truncate_u32(mdat_data_start as u64);
        let alpha_offset: u32 = truncate_u32(alpha_data_start as u64);
        let ghost item_at = iloc_offset_pos - ftyp_end;
        let ghost color_at = color_stco_pos - color_trak_start;
        proof {
            assert(out@ == sequence.with_offsets(
                ILOC_PLACEHOLDER,
                STCO_PLACEHOLDER,
                STCO_PLACEHOLDER,
            ));
            sequence.lemma_item_patched(item_at, 0, STCO_PLACEHOLDER, STCO_PLACEHOLDER);
            sequence.lemma_item_patched(item_at, color_offset, STCO_PLACEHOLDER, STCO_PLACEHOLDER);
            sequence.lemma_color_patched(color_at, color_offset, color_offset, STCO_PLACEHOLDER);
            sequence.lemma_color_patched(color_at, color_offset, 0, STCO_PLACEHOLDER);
        }
        write_u32_at(&mut out, iloc_offset_pos, color_offset);
        assert(out@ == sequence.with_offsets(color_offset, STCO_PLACEHOLDER, STCO_PLACEHOLDER));
        write_u32_at(&mut out, color_stco_pos, color_offset);
        assert(out@ == sequence.with_offsets(color_offset, color_offset, STCO_PLACEHOLDER));
        if let Some(pos) = alpha_stco_pos {
            let ghost alpha_at = pos - alpha_trak_start;
            proof {
                sequence.lemma_alpha_patched(alpha_at, color_offset, color_offset, alpha_offset);
                sequence.lemma_alpha_patched(alpha_at, color_offset, 0, 0);
            }
            write_u32_at(&mut out, pos, alpha_offset);
        }
        proof {
            if !sequence.has_alpha() {
                reveal(SequenceView::moov);
            }
            assert(out@ == sequence.with_offsets(color_offset, color_offset, alpha_offset));
            assert(sequence.color_start() == mdat_data_start);
            assert(sequence.alpha_start() == alpha_data_start);
        }
        out
    }
}

} // verus!
