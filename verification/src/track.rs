//! The movie header, and the tracks that hold the timed frames.
use vstd::prelude::*;

use crate::boxes;
use crate::boxes::{write_colr_nclx, ClapBox, ColrBox};
use crate::bytes;
use crate::bytes::{
    write_bytes, write_u16, write_u32, write_u32_table, write_u64, write_zeros,
};
use crate::codec::{CodecConfig, CodecView};
use crate::fourcc::{
    AUXI, AUXL, AUXV, CCST, DINF, DREF, EDTS, ELST, MDHD, MDIA, MINF, MVHD, PICT, STBL, STSD, TKHD,
    TRAK, TREF, URL, VMHD,
};
use crate::framing;
use crate::framing::{begin_box, end_box, write_fullbox};
use crate::meta;
use crate::meta::{has_colr, write_hdlr};
use crate::presentation;
use crate::presentation::{display_size, fixed_16_16_saturating, Presentation};
use crate::sample_table;
use crate::sample_table::{
    write_stco, write_stsc, write_stss, write_stsz, write_stts, STCO_PLACEHOLDER,
};

verus! {

// ─── Model ───────────────────────────────────────────────────────────

/// What a track is described by.
pub struct TrackView {
    pub id: u32,
    /// The coded size.
    pub width: u32,
    pub height: u32,
    pub timescale: u32,
    /// The media's duration: that of all samples together.
    pub duration: u64,
    pub samples: Seq<Seq<u8>>,
    pub durations: Seq<u32>,
    /// The sync samples, counted from one.
    pub sync: Seq<u32>,
    pub codec: CodecView,
    pub colr: Option<ColrBox>,
    pub clap: Option<ClapBox>,
    pub is_alpha: bool,
    pub presented: Presentation,
}

/// The transformation that changes nothing.
#[verifier::opaque]
pub open spec fn identity_matrix() -> Seq<u8> {
    bytes::be32_table(seq![0x0001_0000u32, 0, 0, 0, 0x0001_0000, 0, 0, 0, 0x4000_0000])
}

/// The `mvhd` box. `duration` is the presented one.
#[verifier::opaque]
pub open spec fn mvhd_box(timescale: u32, duration: u64, next_track_id: u32) -> Seq<u8> {
    framing::full_box(
        MVHD,
        1,
        0,
        bytes::be64(0) + bytes::be64(0) + bytes::be32(timescale) + bytes::be64(duration)
            + bytes::be32(0x0001_0000) + bytes::be16(0x0100) + bytes::zeros(10) + identity_matrix()
            + bytes::zeros(24) + bytes::be32(next_track_id),
    )
}

/// The `tkhd` box: enabled, and in the movie unless it is auxiliary. It states
/// the presented duration and the size to show.
#[verifier::opaque]
pub open spec fn tkhd_box(track: TrackView) -> Seq<u8> {
    framing::full_box(
        TKHD,
        1,
        if track.is_alpha {
            1
        } else {
            3
        },
        bytes::be64(0) + bytes::be64(0) + bytes::be32(track.id) + bytes::be32(0) + bytes::be64(
            presentation::presented_duration(track.presented, track.duration),
        ) + bytes::zeros(8) + bytes::be16(0) + bytes::be16(0) + bytes::be16(0) + bytes::be16(0)
            + identity_matrix() + bytes::be32(
            presentation::fixed_16_16(presentation::shown_width(track.width, track.clap)),
        ) + bytes::be32(
            presentation::fixed_16_16(presentation::shown_height(track.height, track.clap)),
        ),
    )
}

/// An edit list of one segment that repeats: the media, once through. Version 0
/// states 32 bits, and version 1 states the 64 that a longer segment needs.
#[verifier::opaque]
pub open spec fn edts_box(media_duration: u64) -> Seq<u8> {
    framing::mp4_box(
        EDTS,
        if media_duration <= u32::MAX {
            framing::full_box(
                ELST,
                0,
                1,
                bytes::be32(1) + bytes::be32(media_duration as u32) + bytes::be32(0) + bytes::be16(
                    1,
                ) + bytes::be16(0),
            )
        } else {
            framing::full_box(
                ELST,
                1,
                1,
                bytes::be32(1) + bytes::be64(media_duration) + bytes::be64(0) + bytes::be16(1)
                    + bytes::be16(0),
            )
        },
    )
}

/// The `mdhd` box: the media's own duration, which is always finite.
#[verifier::opaque]
pub open spec fn mdhd_box(timescale: u32, media_duration: u64) -> Seq<u8> {
    framing::full_box(
        MDHD,
        1,
        0,
        bytes::be64(0) + bytes::be64(0) + bytes::be32(timescale) + bytes::be64(media_duration)
            + bytes::be16(0x55C4) + bytes::be16(0),
    )
}

/// The `vmhd` box.
#[verifier::opaque]
pub open spec fn vmhd_box() -> Seq<u8> {
    framing::full_box(VMHD, 0, 1, bytes::zeros(8))
}

/// The media is in this file.
#[verifier::opaque]
pub open spec fn dinf_box() -> Seq<u8> {
    framing::mp4_box(
        DINF,
        framing::full_box(
            DREF,
            0,
            0,
            bytes::be32(1) + framing::full_box(URL, 0, 1, Seq::empty()),
        ),
    )
}

/// What an auxiliary track carries.
#[verifier::opaque]
pub open spec fn auxi_box(urn: Seq<char>) -> Seq<u8> {
    framing::full_box(AUXI, 0, 0, vstd::utf8::encode_utf8(urn) + seq![0u8])
}

/// The coding constraints: that intra prediction is used, and either that all
/// pictures are intra-coded, or that no bound on references is claimed.
#[verifier::opaque]
pub open spec fn ccst_box(all_intra: bool) -> Seq<u8> {
    framing::full_box(
        CCST,
        0,
        0,
        seq![
            if all_intra {
                0xC0u8
            } else {
                0x7Cu8
            },
        ] + bytes::zeros(3),
    )
}

/// A side of the coded size, as 16 bits can state it.
pub open spec fn side16(side: u32) -> u16 {
    if side > 0xFFFF {
        0xFFFF
    } else {
        side as u16
    }
}

/// The fields of a visual sample entry.
#[verifier::opaque]
pub open spec fn visual_fields(width: u32, height: u32) -> Seq<u8> {
    bytes::zeros(6) + bytes::be16(1) + bytes::be16(0) + bytes::be16(0) + bytes::zeros(12)
        + bytes::be16(side16(width)) + bytes::be16(side16(height)) + bytes::be32(0x0048_0000)
        + bytes::be32(0x0048_0000) + bytes::be32(0) + bytes::be16(1) + bytes::zeros(32)
        + bytes::be16(0x0018) + bytes::be16(0xFFFF)
}

/// Whether every sample is a sync sample.
pub open spec fn all_intra(track: TrackView) -> bool {
    track.sync.len() == track.samples.len()
}

/// The sample entry: the coded size, the decoder configuration, what an
/// auxiliary track carries, the color information, the crop, and the coding
/// constraints.
#[verifier::opaque]
pub open spec fn sample_entry_box(track: TrackView) -> Seq<u8> {
    framing::mp4_box(
        track.codec.sample_entry(),
        visual_fields(track.width, track.height) + track.codec.config_box() + meta::optional(
            track.is_alpha,
            auxi_box(track.codec.alpha_urn()),
        ) + meta::optional(
            meta::states_colr(track.colr),
            boxes::colr_box(track.colr->0),
        ) + meta::optional(track.clap is Some, boxes::clap_box(track.clap->0)) + ccst_box(
            all_intra(track),
        ),
    )
}

/// The `stsd` box: one sample entry.
#[verifier::opaque]
pub open spec fn stsd_box(track: TrackView) -> Seq<u8> {
    framing::full_box(STSD, 0, 0, bytes::be32(1) + sample_entry_box(track))
}

/// The sample table. The one chunk is at `offset`.
#[verifier::opaque]
pub open spec fn stbl_box(track: TrackView, offset: u32) -> Seq<u8> {
    framing::mp4_box(
        STBL,
        stsd_box(track) + sample_table::stts_box(track.durations) + sample_table::stsc_box(
            track.samples.len(),
        ) + sample_table::stsz_box(track.samples) + sample_table::stco_box(offset)
            + sample_table::stss_box(track.sync),
    )
}

/// The `minf` box.
#[verifier::opaque]
pub open spec fn minf_box(track: TrackView, offset: u32) -> Seq<u8> {
    framing::mp4_box(MINF, vmhd_box() + dinf_box() + stbl_box(track, offset))
}

/// The track's handler: pictures, or something auxiliary to them.
pub open spec fn track_hdlr_box(is_alpha: bool) -> Seq<u8> {
    if is_alpha {
        meta::hdlr_box(AUXV, "Alpha"@)
    } else {
        meta::hdlr_box(PICT, "Color"@)
    }
}

/// The `mdia` box.
#[verifier::opaque]
pub open spec fn mdia_box(track: TrackView, offset: u32) -> Seq<u8> {
    framing::mp4_box(
        MDIA,
        mdhd_box(track.timescale, track.duration) + track_hdlr_box(track.is_alpha) + minf_box(
            track,
            offset,
        ),
    )
}

/// The track is auxiliary to track 1.
#[verifier::opaque]
pub open spec fn tref_box() -> Seq<u8> {
    framing::mp4_box(TREF, framing::mp4_box(AUXL, bytes::be32(1)))
}

/// The `trak` box. The edit list is written only where the sequence repeats.
#[verifier::opaque]
pub open spec fn trak_box(track: TrackView, offset: u32) -> Seq<u8> {
    framing::mp4_box(
        TRAK,
        tkhd_box(track) + meta::optional(
            track.presented != Presentation::Once,
            edts_box(track.duration),
        ) + mdia_box(track, offset) + meta::optional(track.is_alpha, tref_box()),
    )
}

/// What a track is described by, gathered.
pub open spec fn track_view(
    track_id: u32,
    width: u32,
    height: u32,
    timescale: u32,
    duration: u64,
    frames: Seq<&[u8]>,
    durations: Seq<u32>,
    sync_indices: Seq<u32>,
    codec: CodecConfig<'_>,
    colr: Option<&ColrBox>,
    clap: Option<&ClapBox>,
    is_alpha: bool,
    presented: Presentation,
) -> TrackView {
    TrackView {
        id: track_id,
        width,
        height,
        timescale,
        duration,
        samples: sample_table::sample_views(frames),
        durations,
        sync: sync_indices,
        codec: codec@,
        colr: meta::value_of(colr),
        clap: meta::value_of(clap),
        is_alpha,
        presented,
    }
}

// ─── Writers ─────────────────────────────────────────────────────────

fn write_matrix(out: &mut Vec<u8>)
    ensures
        final(out)@ == old(out)@ + identity_matrix(),
{
    reveal(identity_matrix);
    let matrix: [u32; 9] = [0x0001_0000, 0, 0, 0, 0x0001_0000, 0, 0, 0, 0x4000_0000];
    assert(matrix@ =~= seq![0x0001_0000u32, 0, 0, 0, 0x0001_0000, 0, 0, 0, 0x4000_0000]);
    write_u32_table(out, &matrix);
}

/// Append the `mvhd` box.
pub fn write_mvhd(
    out: &mut Vec<u8>,
    timescale: u32,
    duration: u64,
    next_track_id: u32,
    presented: Presentation,
)
    ensures
        final(out)@ == old(out)@ + mvhd_box(
            timescale,
            presentation::presented_duration(presented, duration),
            next_track_id,
        ),
{
    reveal(mvhd_box);
    broadcast use framing::group_framing;

    let pos: usize = begin_box(out, MVHD);
    write_fullbox(out, 1, 0);
    write_u64(out, 0);  // creation_time
    write_u64(out, 0);  // modification_time
    write_u32(out, timescale);
    write_u64(out, presented.duration(duration));
    write_u32(out, 0x0001_0000);  // rate 1.0
    write_u16(out, 0x0100);  // volume 1.0
    write_zeros(out, 10);  // reserved
    write_matrix(out);
    write_zeros(out, 24);  // pre_defined
    write_u32(out, next_track_id);
    end_box(out, pos);
}

/// What the writers below share of one track.
#[derive(Clone, Copy)]
struct Track<'a> {
    id: u32,
    width: u32,
    height: u32,
    timescale: u32,
    duration: u64,
    frames: &'a [&'a [u8]],
    durations: &'a [u32],
    sync_indices: &'a [u32],
    codec: CodecConfig<'a>,
    colr: Option<&'a ColrBox>,
    clap: Option<&'a ClapBox>,
    is_alpha: bool,
    presented: Presentation,
}

impl<'a> View for Track<'a> {
    type V = TrackView;

    closed spec fn view(&self) -> TrackView {
        track_view(
            self.id,
            self.width,
            self.height,
            self.timescale,
            self.duration,
            self.frames@,
            self.durations@,
            self.sync_indices@,
            self.codec,
            self.colr,
            self.clap,
            self.is_alpha,
            self.presented,
        )
    }
}

#[verifier::rlimit(30)]
fn write_tkhd(out: &mut Vec<u8>, track: Track<'_>)
    requires
        presentation::can_crop(track@.width, track@.height, track@.clap),
    ensures
        final(out)@ == old(out)@ + tkhd_box(track@),
{
    reveal(tkhd_box);
    broadcast use framing::group_framing;

    let pos: usize = begin_box(out, TKHD);
    let flags: u32 = if track.is_alpha {
        1
    } else {
        3
    };  // enabled | in_movie
    write_fullbox(out, 1, flags);
    write_u64(out, 0);  // creation_time
    write_u64(out, 0);  // modification_time
    write_u32(out, track.id);
    write_u32(out, 0);  // reserved
    // The track's duration is the one a reader divides the edit list's segment
    // into to get the number of plays, so it states the whole presentation
    // rather than the media. The media duration in `mdhd` stays finite.
    write_u64(out, track.presented.duration(track.duration));
    write_zeros(out, 8);  // reserved
    write_u16(out, 0);  // layer
    write_u16(out, 0);  // alternate_group
    write_u16(out, 0);  // volume
    write_u16(out, 0);  // reserved
    write_matrix(out);
    // The displayed size, which is not the coded size when the frames were
    // padded. A player reads its dimensions here.
    let (display_width, display_height): (u32, u32) = display_size(
        track.width,
        track.height,
        track.clap,
    );
    write_u32(out, fixed_16_16_saturating(display_width));
    write_u32(out, fixed_16_16_saturating(display_height));
    end_box(out, pos);
}

fn write_edts(out: &mut Vec<u8>, media_duration: u64)
    ensures
        final(out)@ == old(out)@ + edts_box(media_duration),
{
    reveal(edts_box);
    broadcast use framing::group_framing;

    let edts_pos: usize = begin_box(out, EDTS);
    let pos: usize = begin_box(out, ELST);
    // Flags bit 0 says that the segment repeats. The segment is one pass over
    // the media, so a long one takes the version whose fields can state it.
    if media_duration <= u32::MAX as u64 {
        write_fullbox(out, 0, 1);
        write_u32(out, 1);  // entry_count
        write_u32(out, media_duration as u32);  // segment_duration
        write_u32(out, 0);  // media_time, from the start
    } else {
        write_fullbox(out, 1, 1);
        write_u32(out, 1);  // entry_count
        write_u64(out, media_duration);  // segment_duration
        write_u64(out, 0);  // media_time, from the start
    }
    write_u16(out, 1);  // media_rate_integer
    write_u16(out, 0);  // media_rate_fraction
    end_box(out, pos);
    end_box(out, edts_pos);
}

fn write_mdhd(out: &mut Vec<u8>, timescale: u32, media_duration: u64)
    ensures
        final(out)@ == old(out)@ + mdhd_box(timescale, media_duration),
{
    reveal(mdhd_box);
    broadcast use framing::group_framing;

    let pos: usize = begin_box(out, MDHD);
    write_fullbox(out, 1, 0);
    write_u64(out, 0);  // creation_time
    write_u64(out, 0);  // modification_time
    write_u32(out, timescale);
    write_u64(out, media_duration);
    write_u16(out, 0x55C4);  // language: undetermined
    write_u16(out, 0);
    end_box(out, pos);
}

fn write_vmhd(out: &mut Vec<u8>)
    ensures
        final(out)@ == old(out)@ + vmhd_box(),
{
    reveal(vmhd_box);
    broadcast use framing::group_framing;

    let pos: usize = begin_box(out, VMHD);
    write_fullbox(out, 0, 1);
    write_zeros(out, 8);  // graphicsmode and opcolor
    end_box(out, pos);
}

fn write_dinf(out: &mut Vec<u8>)
    ensures
        final(out)@ == old(out)@ + dinf_box(),
{
    reveal(dinf_box);
    broadcast use framing::group_framing;

    let dinf_pos: usize = begin_box(out, DINF);
    let dref_pos: usize = begin_box(out, DREF);
    write_fullbox(out, 0, 0);
    write_u32(out, 1);
    let url_pos: usize = begin_box(out, URL);
    write_fullbox(out, 0, 1);  // self-contained
    end_box(out, url_pos);
    end_box(out, dref_pos);
    end_box(out, dinf_pos);
}

fn write_auxi(out: &mut Vec<u8>, urn: &str)
    ensures
        final(out)@ == old(out)@ + auxi_box(urn@),
{
    reveal(auxi_box);
    broadcast use framing::group_framing;

    let pos: usize = begin_box(out, AUXI);
    write_fullbox(out, 0, 0);
    write_bytes(out, urn.as_bytes());
    write_bytes(out, &[0]);
    assert([0u8]@ =~= seq![0u8]);
    end_box(out, pos);
}

fn write_ccst(out: &mut Vec<u8>, all_intra: bool)
    ensures
        final(out)@ == old(out)@ + ccst_box(all_intra),
{
    reveal(ccst_box);
    broadcast use framing::group_framing;

    let pos: usize = begin_box(out, CCST);
    write_fullbox(out, 0, 0);
    let intra_pred_used: u8 = 0x40;
    let constraints: u8 = if all_intra {
        intra_pred_used + 0x80  // all_ref_pics_intra

    } else {
        // max_ref_per_pic, four bits; 15 states that no bound is being claimed.
        intra_pred_used + 15 * 4
    };
    write_bytes(out, &[constraints]);
    assert([constraints]@ =~= seq![constraints]);
    write_zeros(out, 3);  // reserved
    end_box(out, pos);
}

fn write_visual_fields(out: &mut Vec<u8>, width: u32, height: u32)
    ensures
        final(out)@ == old(out)@ + visual_fields(width, height),
{
    reveal(visual_fields);
    broadcast use bytes::group_append;

    // The fields are 16 bits wide. Saturate rather than wrap.
    let width16: u16 = if width > 0xFFFF {
        0xFFFF
    } else {
        width as u16
    };
    let height16: u16 = if height > 0xFFFF {
        0xFFFF
    } else {
        height as u16
    };
    write_zeros(out, 6);  // reserved
    write_u16(out, 1);  // data_reference_index
    write_u16(out, 0);  // pre_defined
    write_u16(out, 0);  // reserved
    write_zeros(out, 12);  // pre_defined
    write_u16(out, width16);
    write_u16(out, height16);
    write_u32(out, 0x0048_0000);  // horizontal resolution, 72 dpi
    write_u32(out, 0x0048_0000);  // vertical resolution, 72 dpi
    write_u32(out, 0);  // reserved
    write_u16(out, 1);  // frame_count
    write_zeros(out, 32);  // compressorname
    write_u16(out, 0x0018);  // depth: 24
    write_u16(out, 0xFFFF);  // pre_defined: -1
}

#[verifier::rlimit(30)]
fn write_stsd(out: &mut Vec<u8>, track: Track<'_>)
    ensures
        final(out)@ == old(out)@ + stsd_box(track@),
{
    reveal(stsd_box);
    reveal(sample_entry_box);
    broadcast use framing::group_framing;

    let pos: usize = begin_box(out, STSD);
    write_fullbox(out, 0, 0);
    write_u32(out, 1);  // entry_count
    let entry_pos: usize = begin_box(out, track.codec.entry_type());
    write_visual_fields(out, track.width, track.height);
    track.codec.write_box(out);
    // Without this a reader takes an auxiliary track for a second picture
    // track and shows it as one, rather than as transparency.
    if track.is_alpha {
        write_auxi(out, track.codec.alpha_aux_urn());
    }
    // The color of a sequence is stated here as well as on the still item: a
    // player of the track does not look there.
    if let Some(colr) = track.colr {
        if has_colr(track.colr) {
            write_colr_nclx(out, colr);
        }
    }
    // Needed when the coded frame is larger than the picture.
    if let Some(clap) = track.clap {
        clap.write(out);
    }
    // A track whose every sample is a sync sample really is all-intra, and one
    // that is not must not claim to be: a reader may skip building the
    // reference machinery that the later frames need.
    write_ccst(out, track.sync_indices.len() == track.frames.len());
    end_box(out, entry_pos);
    end_box(out, pos);
}

/// Append the sample table with a placeholder for the chunk's offset, and
/// return the position of the offset.
fn write_stbl(out: &mut Vec<u8>, track: Track<'_>) -> (pos: usize)
    requires
        sample_table::runs_fit(track@.durations),
    ensures
        final(out)@ == old(out)@ + stbl_box(track@, STCO_PLACEHOLDER),
        old(out)@.len() + 8 <= pos,
        pos + 4 <= final(out)@.len(),
        forall|offset: u32| #[trigger]
            bytes::patched(stbl_box(track@, STCO_PLACEHOLDER), pos - old(out)@.len(), offset)
                == stbl_box(track@, offset),
{
    reveal(stbl_box);
    broadcast use framing::group_framing;

    let ghost before = out@;
    let stbl_pos: usize = begin_box(out, STBL);
    write_stsd(out, track);
    write_stts(out, track.durations);
    write_stsc(out, track.frames.len());
    write_stsz(out, track.frames);
    let ghost stco_start = out@.len();
    let pos: usize = write_stco(out);
    write_stss(out, track.sync_indices);
    end_box(out, stbl_pos);
    proof {
        let head = stsd_box(track@) + sample_table::stts_box(track@.durations)
            + sample_table::stsc_box(track@.samples.len()) + sample_table::stsz_box(track@.samples);
        let tail = sample_table::stss_box(track@.sync);
        let at = pos - before.len();
        assert forall|offset: u32| #[trigger]
            bytes::patched(stbl_box(track@, STCO_PLACEHOLDER), at, offset) == stbl_box(
            track@,
            offset,
        ) by {
            let stco = sample_table::stco_box(STCO_PLACEHOLDER);
            framing::lemma_patched_box(STBL, head + (stco + tail), at, offset);
            bytes::lemma_patched_second(head, stco + tail, at - 8, offset);
            bytes::lemma_patched_first(stco, tail, pos - stco_start, offset);
        }
    }
    pos
}

fn write_minf(out: &mut Vec<u8>, track: Track<'_>) -> (pos: usize)
    requires
        sample_table::runs_fit(track@.durations),
    ensures
        final(out)@ == old(out)@ + minf_box(track@, STCO_PLACEHOLDER),
        old(out)@.len() + 8 <= pos,
        pos + 4 <= final(out)@.len(),
        forall|offset: u32| #[trigger]
            bytes::patched(minf_box(track@, STCO_PLACEHOLDER), pos - old(out)@.len(), offset)
                == minf_box(track@, offset),
{
    reveal(minf_box);
    broadcast use framing::group_framing;

    let ghost before = out@;
    let minf_pos: usize = begin_box(out, MINF);
    write_vmhd(out);
    write_dinf(out);
    let ghost stbl_start = out@.len();
    let pos: usize = write_stbl(out, track);
    end_box(out, minf_pos);
    proof {
        let head = vmhd_box() + dinf_box();
        let at = pos - before.len();
        assert forall|offset: u32| #[trigger]
            bytes::patched(minf_box(track@, STCO_PLACEHOLDER), at, offset) == minf_box(
            track@,
            offset,
        ) by {
            let stbl = stbl_box(track@, STCO_PLACEHOLDER);
            framing::lemma_patched_box(MINF, head + stbl, at, offset);
            bytes::lemma_patched_second(head, stbl, at - 8, offset);
            assert(at - 8 - head.len() == pos - stbl_start);
        }
    }
    pos
}

fn write_mdia(out: &mut Vec<u8>, track: Track<'_>) -> (pos: usize)
    requires
        sample_table::runs_fit(track@.durations),
    ensures
        final(out)@ == old(out)@ + mdia_box(track@, STCO_PLACEHOLDER),
        old(out)@.len() + 8 <= pos,
        pos + 4 <= final(out)@.len(),
        forall|offset: u32| #[trigger]
            bytes::patched(mdia_box(track@, STCO_PLACEHOLDER), pos - old(out)@.len(), offset)
                == mdia_box(track@, offset),
{
    reveal(mdia_box);
    broadcast use framing::group_framing;

    let ghost before = out@;
    let mdia_pos: usize = begin_box(out, MDIA);
    write_mdhd(out, track.timescale, track.duration);
    if track.is_alpha {
        write_hdlr(out, AUXV, "Alpha");
    } else {
        write_hdlr(out, PICT, "Color");
    }
    let ghost minf_start = out@.len();
    let pos: usize = write_minf(out, track);
    end_box(out, mdia_pos);
    proof {
        let head = mdhd_box(track@.timescale, track@.duration) + track_hdlr_box(track@.is_alpha);
        let at = pos - before.len();
        assert forall|offset: u32| #[trigger]
            bytes::patched(mdia_box(track@, STCO_PLACEHOLDER), at, offset) == mdia_box(
            track@,
            offset,
        ) by {
            let minf = minf_box(track@, STCO_PLACEHOLDER);
            framing::lemma_patched_box(MDIA, head + minf, at, offset);
            bytes::lemma_patched_second(head, minf, at - 8, offset);
            assert(at - 8 - head.len() == pos - minf_start);
        }
    }
    pos
}

fn write_tref(out: &mut Vec<u8>)
    ensures
        final(out)@ == old(out)@ + tref_box(),
{
    reveal(tref_box);
    broadcast use framing::group_framing;

    let tref_pos: usize = begin_box(out, TREF);
    let auxl_pos: usize = begin_box(out, AUXL);
    write_u32(out, 1);  // the color track
    end_box(out, auxl_pos);
    end_box(out, tref_pos);
}

/// Append a `trak` box with a placeholder for the chunk's offset, and return
/// the position of the offset.
pub fn write_track(
    out: &mut Vec<u8>,
    track_id: u32,
    width: u32,
    height: u32,
    timescale: u32,
    duration: u64,
    frames: &[&[u8]],
    durations: &[u32],
    sync_indices: &[u32],
    codec: CodecConfig<'_>,
    colr: Option<&ColrBox>,
    clap: Option<&ClapBox>,
    is_alpha: bool,
    presented: Presentation,
) -> (pos: usize)
    requires
        presentation::can_crop(width, height, meta::value_of(clap)),
        sample_table::runs_fit(durations@),
    ensures
        ({
            let track = track_view(
                track_id,
                width,
                height,
                timescale,
                duration,
                frames@,
                durations@,
                sync_indices@,
                codec,
                colr,
                clap,
                is_alpha,
                presented,
            );
            &&& final(out)@ == old(out)@ + trak_box(track, STCO_PLACEHOLDER)
            &&& old(out)@.len() <= pos
            &&& pos + 4 <= final(out)@.len()
            &&& forall|offset: u32| #[trigger]
                bytes::patched(trak_box(track, STCO_PLACEHOLDER), pos - old(out)@.len(), offset)
                    == trak_box(track, offset)
        }),
{
    reveal(trak_box);
    broadcast use framing::group_framing;

    let track = Track {
        id: track_id,
        width,
        height,
        timescale,
        duration,
        frames,
        durations,
        sync_indices,
        codec,
        colr,
        clap,
        is_alpha,
        presented,
    };
    let ghost before = out@;
    let trak_pos: usize = begin_box(out, TRAK);
    write_tkhd(out, track);
    // One segment covering the media exactly once. How often it plays is not
    // in this box: a reader divides the track's duration by the segment's.
    if presented.repeats() {
        write_edts(out, duration);
    }
    let ghost mdia_start = out@.len();
    let pos: usize = write_mdia(out, track);
    if is_alpha {
        write_tref(out);
    }
    end_box(out, trak_pos);
    proof {
        let head = tkhd_box(track@) + meta::optional(
            presented != Presentation::Once,
            edts_box(duration),
        );
        let tail = meta::optional(is_alpha, tref_box());
        let at = pos - before.len();
        assert forall|offset: u32| #[trigger]
            bytes::patched(trak_box(track@, STCO_PLACEHOLDER), at, offset) == trak_box(
            track@,
            offset,
        ) by {
            let mdia = mdia_box(track@, STCO_PLACEHOLDER);
            framing::lemma_patched_box(TRAK, head + (mdia + tail), at, offset);
            bytes::lemma_patched_second(head, mdia + tail, at - 8, offset);
            bytes::lemma_patched_first(mdia, tail, pos - mdia_start, offset);
        }
    }
    pos
}

} // verus!
