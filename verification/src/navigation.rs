//! A reader's way through a serialized sequence, box by box.
use vstd::prelude::*;

use crate::boxes;
use crate::bytes;
use crate::codec::CodecView;
use crate::fourcc::{
    AUXI, AV1C, CCST, CLAP, COLR, DINF, EDTS, FTYP, HDLR, HVCC, IINF, ILOC, IPCO, IPMA, IPRP, MDAT,
    MDHD, MDIA, META, MINF, MOOV, MVHD, PICT, PITM, STBL, STCO, STSC, STSD, STSS, STSZ, STTS, TKHD,
    TRAK, TREF, VMHD,
};
use crate::framing;
use crate::hvcc;
use crate::meta;
use crate::meta::ItemView;
use crate::presentation::Presentation;
use crate::reader;
use crate::sample_table;
use crate::sequence::SequenceView;
use crate::track;
use crate::track::TrackView;

verus! {

// ─── Single boxes ────────────────────────────────────────────────────

/// What is in a box.
pub open spec fn payload(s: Seq<u8>) -> Seq<u8> {
    s.skip(8)
}

/// Whether `s` is one box of type `kind`. Of a box longer than 32 bits can state,
/// the size field holds the low bits.
pub open spec fn is_box(s: Seq<u8>, kind: u32) -> bool {
    s == framing::mp4_box(kind, payload(s))
}

/// A box holds what it was made around.
pub broadcast proof fn lemma_payload(kind: u32, p: Seq<u8>)
    ensures
        payload(#[trigger] framing::mp4_box(kind, p)) == p,
{
    broadcast use framing::group_framing;

    reveal(framing::mp4_box);
    assert(payload(framing::mp4_box(kind, p)) =~= p);
}

/// A search passes over a box of another type.
pub proof fn lemma_next(s: Seq<u8>, kind: u32, rest: Seq<u8>, wanted: u32, n: nat)
    requires
        is_box(s, kind),
        s.len() <= u32::MAX,
        kind != wanted,
    ensures
        reader::nth_box(s + rest, wanted, n) == reader::nth_box(rest, wanted, n),
{
    broadcast use framing::group_framing;

    reader::lemma_nth_box(kind, payload(s), rest, wanted, n);
}

/// A search ends at the first box of its type.
pub proof fn lemma_found(s: Seq<u8>, kind: u32, rest: Seq<u8>)
    requires
        is_box(s, kind),
        s.len() <= u32::MAX,
    ensures
        reader::nth_box(s + rest, kind, 0) == Some(payload(s)),
        reader::nth_box(s + rest, kind, 1) == reader::nth_box(rest, kind, 0),
{
    broadcast use framing::group_framing;

    reader::lemma_nth_box(kind, payload(s), rest, kind, 0);
    reader::lemma_nth_box(kind, payload(s), rest, kind, 1);
}

/// The type of an optional box, where it applies.
pub open spec fn kind_if(applies: bool, kind: u32) -> Seq<int> {
    if applies {
        seq![kind as int]
    } else {
        Seq::empty()
    }
}

/// The type of a box precedes those of what follows it.
pub proof fn lemma_kind(s: Seq<u8>, kind: u32, rest: Seq<u8>)
    requires
        is_box(s, kind),
        s.len() <= u32::MAX,
    ensures
        reader::kinds(s + rest) == seq![kind as int] + reader::kinds(rest),
        reader::is_tiled(s + rest) == reader::is_tiled(rest),
{
    broadcast use framing::group_framing;

    reader::lemma_kinds(kind, payload(s), rest);
}

/// The type of an optional box precedes those of what follows it.
pub proof fn lemma_optional_kind(applies: bool, s: Seq<u8>, kind: u32, rest: Seq<u8>)
    requires
        is_box(s, kind),
        applies ==> s.len() <= u32::MAX,
    ensures
        reader::kinds(meta::optional(applies, s) + rest) == kind_if(applies, kind)
            + reader::kinds(rest),
        reader::is_tiled(meta::optional(applies, s) + rest) == reader::is_tiled(rest),
{
    broadcast use framing::group_framing;

    if applies {
        reader::lemma_kinds(kind, payload(s), rest);
    } else {
        assert(meta::optional(applies, s) + rest =~= rest);
        assert(kind_if(applies, kind) + reader::kinds(rest) =~= reader::kinds(rest));
    }
}

/// A search passes over an optional box of another type, and ends at one of its own.
pub proof fn lemma_optional_box(applies: bool, s: Seq<u8>, kind: u32, rest: Seq<u8>, wanted: u32)
    requires
        is_box(s, kind),
        applies ==> s.len() <= u32::MAX,
    ensures
        reader::nth_box(meta::optional(applies, s) + rest, wanted, 0) == (if applies && kind
            == wanted {
            Some(payload(s))
        } else {
            reader::nth_box(rest, wanted, 0)
        }),
{
    if applies {
        if kind == wanted {
            lemma_found(s, kind, rest);
        } else {
            lemma_next(s, kind, rest, wanted, 0);
        }
    } else {
        assert(meta::optional(applies, s) + rest =~= rest);
    }
}

// ─── Top level ───────────────────────────────────────────────────────

/// The boxes of a file are its type, its still item, its movie and its media.
pub proof fn lemma_top(sequence: SequenceView, item: u32, color: u32, alpha: u32)
    requires
        sequence.with_offsets(item, color, alpha).len() <= u32::MAX,
    ensures
        ({
            let file = sequence.with_offsets(item, color, alpha);
            &&& reader::is_tiled(file)
            &&& reader::kinds(file) == seq![FTYP as int, META as int, MOOV as int, MDAT as int]
            &&& reader::nth_box(file, FTYP, 0) == Some(
                payload(meta::ftyp_box(sequence.color_codec())),
            )
            &&& reader::nth_box(file, META, 0) == Some(
                payload(meta::meta_box(sequence.item(), item)),
            )
            &&& reader::nth_box(file, MOOV, 0) == Some(payload(sequence.moov(color, alpha)))
            &&& reader::nth_box(file, MDAT, 0) == Some(payload(sequence.mdat()))
            &&& meta::meta_box(sequence.item(), item).len() <= u32::MAX
            &&& sequence.moov(color, alpha).len() <= u32::MAX
        }),
{
    let ftyp = meta::ftyp_box(sequence.color_codec());
    let meta = meta::meta_box(sequence.item(), item);
    let moov = sequence.moov(color, alpha);
    let mdat = sequence.mdat();
    assert(is_box(ftyp, FTYP)) by {
        broadcast use lemma_payload;

        reveal(meta::ftyp_box);
    }
    assert(is_box(meta, META)) by {
        broadcast use lemma_payload;

        reveal(meta::meta_box);
    }
    assert(is_box(moov, MOOV)) by {
        broadcast use lemma_payload;

        reveal(SequenceView::moov);
    }
    assert(is_box(mdat, MDAT)) by {
        broadcast use lemma_payload;

    }
    let nothing = Seq::<u8>::empty();
    assert(mdat + nothing =~= mdat);
    lemma_found(ftyp, FTYP, meta + (moov + mdat));
    lemma_next(ftyp, FTYP, meta + (moov + mdat), META, 0);
    lemma_found(meta, META, moov + mdat);
    lemma_next(ftyp, FTYP, meta + (moov + mdat), MOOV, 0);
    lemma_next(meta, META, moov + mdat, MOOV, 0);
    lemma_found(moov, MOOV, mdat);
    lemma_next(ftyp, FTYP, meta + (moov + mdat), MDAT, 0);
    lemma_next(meta, META, moov + mdat, MDAT, 0);
    lemma_next(moov, MOOV, mdat, MDAT, 0);
    lemma_found(mdat, MDAT, nothing);
    lemma_kind(ftyp, FTYP, meta + (moov + mdat));
    lemma_kind(meta, META, moov + mdat);
    lemma_kind(moov, MOOV, mdat);
    lemma_kind(mdat, MDAT, nothing);
    reader::lemma_kinds_nothing();
    assert(reader::kinds(sequence.with_offsets(item, color, alpha)) =~= seq![
        FTYP as int,
        META as int,
        MOOV as int,
        MDAT as int,
    ]);
}

/// The tracks of a movie are the color track and, where there is one, the alpha track.
pub proof fn lemma_tracks(sequence: SequenceView, color: u32, alpha: u32)
    requires
        sequence.moov(color, alpha).len() <= u32::MAX,
    ensures
        ({
            let movie = payload(sequence.moov(color, alpha));
            &&& reader::is_tiled(movie)
            &&& reader::kinds(movie) == seq![MVHD as int, TRAK as int] + kind_if(
                sequence.has_alpha(),
                TRAK,
            )
            &&& reader::nth_box(movie, MVHD, 0) == Some(payload(sequence.mvhd()))
            &&& reader::nth_box(movie, TRAK, 0) == Some(
                payload(track::trak_box(sequence.color_track(), color)),
            )
            &&& track::trak_box(sequence.color_track(), color).len() <= u32::MAX
            &&& sequence.has_alpha() ==> reader::nth_box(movie, TRAK, 1) == Some(
                payload(track::trak_box(sequence.alpha_track(), alpha)),
            )
            &&& sequence.has_alpha() ==> track::trak_box(sequence.alpha_track(), alpha).len()
                <= u32::MAX
            &&& forall|k: nat|
                !has_track(sequence, k) ==> #[trigger] reader::nth_box(movie, TRAK, k) is None
        }),
{
    let mvhd = sequence.mvhd();
    let color_trak = track::trak_box(sequence.color_track(), color);
    let alpha_trak = track::trak_box(sequence.alpha_track(), alpha);
    let tail = meta::optional(sequence.has_alpha(), alpha_trak);
    let nothing = Seq::<u8>::empty();
    assert(is_box(mvhd, MVHD)) by {
        broadcast use lemma_payload;

        reveal(track::mvhd_box);
    }
    assert(is_box(color_trak, TRAK) && is_box(alpha_trak, TRAK)) by {
        broadcast use lemma_payload;

        reveal(track::trak_box);
    }
    assert(sequence.moov(color, alpha) == framing::mp4_box(MOOV, mvhd + (color_trak + tail))) by {
        broadcast use bytes::group_append;

        reveal(SequenceView::moov);
    }
    lemma_payload(MOOV, mvhd + (color_trak + tail));
    framing::lemma_box_len(MOOV, mvhd + (color_trak + tail));
    lemma_found(mvhd, MVHD, color_trak + tail);
    lemma_next(mvhd, MVHD, color_trak + tail, TRAK, 0);
    lemma_next(mvhd, MVHD, color_trak + tail, TRAK, 1);
    lemma_found(color_trak, TRAK, tail);
    if sequence.has_alpha() {
        assert(alpha_trak + nothing =~= alpha_trak);
        lemma_found(alpha_trak, TRAK, nothing);
    }
    assert forall|k: nat| !has_track(sequence, k) implies #[trigger] reader::nth_box(
        mvhd + (color_trak + tail),
        TRAK,
        k,
    ) is None by {
        let later = (k - 1) as nat;
        framing::lemma_box_len(TRAK, payload(color_trak));
        framing::lemma_box_len(TRAK, payload(alpha_trak));
        lemma_next(mvhd, MVHD, color_trak + tail, TRAK, k);
        reader::lemma_nth_box(TRAK, payload(color_trak), tail, TRAK, k);
        if sequence.has_alpha() {
            reader::lemma_nth_box(TRAK, payload(alpha_trak), nothing, TRAK, later);
            reader::lemma_nth_box_nothing(TRAK, (later - 1) as nat);
        }
        reader::lemma_nth_box_nothing(TRAK, later);
    }
    assert(tail + nothing =~= tail);
    lemma_kind(mvhd, MVHD, color_trak + tail);
    lemma_kind(color_trak, TRAK, tail);
    lemma_optional_kind(sequence.has_alpha(), alpha_trak, TRAK, nothing);
    reader::lemma_kinds_nothing();
    assert(reader::kinds(mvhd + (color_trak + tail)) =~= seq![MVHD as int, TRAK as int] + kind_if(
        sequence.has_alpha(),
        TRAK,
    ));
}

// ─── Inside a track ──────────────────────────────────────────────────

/// The types of the boxes of a track: an edit list only where it repeats, and a
/// reference only where it is auxiliary.
pub open spec fn trak_kinds(t: TrackView) -> Seq<int> {
    seq![TKHD as int] + kind_if(t.presented != Presentation::Once, EDTS) + seq![MDIA as int]
        + kind_if(t.is_alpha, TREF)
}

/// The boxes of a track.
pub proof fn lemma_trak(t: TrackView, offset: u32)
    requires
        track::trak_box(t, offset).len() <= u32::MAX,
    ensures
        ({
            let trak = payload(track::trak_box(t, offset));
            &&& reader::is_tiled(trak)
            &&& reader::kinds(trak) == trak_kinds(t)
            &&& reader::nth_box(trak, TKHD, 0) == Some(payload(track::tkhd_box(t)))
            &&& reader::nth_box(trak, MDIA, 0) == Some(payload(track::mdia_box(t, offset)))
            &&& track::mdia_box(t, offset).len() <= u32::MAX
            &&& t.presented != Presentation::Once ==> reader::nth_box(trak, EDTS, 0) == Some(
                payload(track::edts_box(t.duration)),
            )
            &&& t.presented == Presentation::Once ==> reader::nth_box(trak, EDTS, 0) is None
            &&& reader::nth_box(trak, TREF, 0) == (if t.is_alpha {
                Some(payload(track::tref_box()))
            } else {
                None
            })
        }),
{
    let tkhd = track::tkhd_box(t);
    let edts = track::edts_box(t.duration);
    let list = meta::optional(t.presented != Presentation::Once, edts);
    let mdia = track::mdia_box(t, offset);
    let tref = track::tref_box();
    let tail = meta::optional(t.is_alpha, tref);
    let nothing = Seq::<u8>::empty();
    assert(is_box(tkhd, TKHD)) by {
        broadcast use lemma_payload;

        reveal(track::tkhd_box);
    }
    assert(is_box(edts, EDTS)) by {
        broadcast use lemma_payload;

        reveal(track::edts_box);
    }
    assert(is_box(mdia, MDIA)) by {
        broadcast use lemma_payload;

        reveal(track::mdia_box);
    }
    assert(is_box(tref, TREF)) by {
        broadcast use lemma_payload;

        reveal(track::tref_box);
    }
    assert(track::trak_box(t, offset) == framing::mp4_box(
        TRAK,
        tkhd + (list + (mdia + tail)),
    )) by {
        broadcast use bytes::group_append;

        reveal(track::trak_box);
    }
    lemma_payload(TRAK, tkhd + (list + (mdia + tail)));
    framing::lemma_box_len(TRAK, tkhd + (list + (mdia + tail)));
    assert(nothing + (mdia + tail) =~= mdia + tail);
    lemma_found(tkhd, TKHD, list + (mdia + tail));
    lemma_next(tkhd, TKHD, list + (mdia + tail), EDTS, 0);
    lemma_next(tkhd, TKHD, list + (mdia + tail), MDIA, 0);
    if t.presented != Presentation::Once {
        lemma_found(edts, EDTS, mdia + tail);
        lemma_next(edts, EDTS, mdia + tail, MDIA, 0);
    } else {
        lemma_next(mdia, MDIA, tail, EDTS, 0);
        if t.is_alpha {
            assert(tref + nothing =~= tref);
            lemma_next(tref, TREF, nothing, EDTS, 0);
        }
    }
    lemma_found(mdia, MDIA, tail);
    lemma_next(tkhd, TKHD, list + (mdia + tail), TREF, 0);
    lemma_optional_box(t.presented != Presentation::Once, edts, EDTS, mdia + tail, TREF);
    lemma_next(mdia, MDIA, tail, TREF, 0);
    assert(tail + nothing =~= tail);
    lemma_optional_box(t.is_alpha, tref, TREF, nothing, TREF);
    reader::lemma_nth_box_nothing(TREF, 0);
    lemma_kind(tkhd, TKHD, list + (mdia + tail));
    lemma_optional_kind(t.presented != Presentation::Once, edts, EDTS, mdia + tail);
    lemma_kind(mdia, MDIA, tail);
    lemma_optional_kind(t.is_alpha, tref, TREF, nothing);
    reader::lemma_kinds_nothing();
    assert(reader::kinds(tkhd + (list + (mdia + tail))) =~= trak_kinds(t));
}

/// The boxes of a track's media.
pub proof fn lemma_mdia(t: TrackView, offset: u32)
    requires
        track::mdia_box(t, offset).len() <= u32::MAX,
    ensures
        ({
            let mdia = payload(track::mdia_box(t, offset));
            &&& reader::is_tiled(mdia)
            &&& reader::kinds(mdia) == seq![MDHD as int, HDLR as int, MINF as int]
            &&& reader::nth_box(mdia, MDHD, 0) == Some(
                payload(track::mdhd_box(t.timescale, t.duration)),
            )
            &&& reader::nth_box(mdia, HDLR, 0) == Some(payload(track::track_hdlr_box(t.is_alpha)))
            &&& reader::nth_box(mdia, MINF, 0) == Some(payload(track::minf_box(t, offset)))
            &&& track::minf_box(t, offset).len() <= u32::MAX
        }),
{
    let mdhd = track::mdhd_box(t.timescale, t.duration);
    let hdlr = track::track_hdlr_box(t.is_alpha);
    let minf = track::minf_box(t, offset);
    let nothing = Seq::<u8>::empty();
    assert(is_box(mdhd, MDHD)) by {
        broadcast use lemma_payload;

        reveal(track::mdhd_box);
    }
    assert(is_box(hdlr, HDLR)) by {
        broadcast use lemma_payload;

        reveal(meta::hdlr_box);
    }
    assert(is_box(minf, MINF)) by {
        broadcast use lemma_payload;

        reveal(track::minf_box);
    }
    assert(track::mdia_box(t, offset) == framing::mp4_box(MDIA, mdhd + (hdlr + (minf + nothing))))
        by {
        broadcast use bytes::group_append;

        reveal(track::mdia_box);
    }
    lemma_payload(MDIA, mdhd + (hdlr + (minf + nothing)));
    framing::lemma_box_len(MDIA, mdhd + (hdlr + (minf + nothing)));
    lemma_found(mdhd, MDHD, hdlr + (minf + nothing));
    lemma_next(mdhd, MDHD, hdlr + (minf + nothing), HDLR, 0);
    lemma_found(hdlr, HDLR, minf + nothing);
    lemma_next(mdhd, MDHD, hdlr + (minf + nothing), MINF, 0);
    lemma_next(hdlr, HDLR, minf + nothing, MINF, 0);
    lemma_found(minf, MINF, nothing);
    lemma_kind(mdhd, MDHD, hdlr + (minf + nothing));
    lemma_kind(hdlr, HDLR, minf + nothing);
    lemma_kind(minf, MINF, nothing);
    reader::lemma_kinds_nothing();
    assert(reader::kinds(mdhd + (hdlr + (minf + nothing))) =~= seq![
        MDHD as int,
        HDLR as int,
        MINF as int,
    ]);
}

/// The boxes of a track's media information.
pub proof fn lemma_minf(t: TrackView, offset: u32)
    requires
        track::minf_box(t, offset).len() <= u32::MAX,
    ensures
        ({
            let minf = payload(track::minf_box(t, offset));
            &&& reader::is_tiled(minf)
            &&& reader::kinds(minf) == seq![VMHD as int, DINF as int, STBL as int]
            &&& reader::nth_box(minf, VMHD, 0) == Some(payload(track::vmhd_box()))
            &&& reader::nth_box(minf, DINF, 0) == Some(payload(track::dinf_box()))
            &&& reader::nth_box(minf, STBL, 0) == Some(payload(track::stbl_box(t, offset)))
            &&& track::stbl_box(t, offset).len() <= u32::MAX
        }),
{
    let vmhd = track::vmhd_box();
    let dinf = track::dinf_box();
    let stbl = track::stbl_box(t, offset);
    let nothing = Seq::<u8>::empty();
    assert(is_box(vmhd, VMHD)) by {
        broadcast use lemma_payload;

        reveal(track::vmhd_box);
    }
    assert(is_box(dinf, DINF)) by {
        broadcast use lemma_payload;

        reveal(track::dinf_box);
    }
    assert(is_box(stbl, STBL)) by {
        broadcast use lemma_payload;

        reveal(track::stbl_box);
    }
    assert(track::minf_box(t, offset) == framing::mp4_box(MINF, vmhd + (dinf + (stbl + nothing))))
        by {
        broadcast use bytes::group_append;

        reveal(track::minf_box);
    }
    lemma_payload(MINF, vmhd + (dinf + (stbl + nothing)));
    framing::lemma_box_len(MINF, vmhd + (dinf + (stbl + nothing)));
    lemma_found(vmhd, VMHD, dinf + (stbl + nothing));
    lemma_next(vmhd, VMHD, dinf + (stbl + nothing), DINF, 0);
    lemma_found(dinf, DINF, stbl + nothing);
    lemma_next(vmhd, VMHD, dinf + (stbl + nothing), STBL, 0);
    lemma_next(dinf, DINF, stbl + nothing, STBL, 0);
    lemma_found(stbl, STBL, nothing);
    lemma_kind(vmhd, VMHD, dinf + (stbl + nothing));
    lemma_kind(dinf, DINF, stbl + nothing);
    lemma_kind(stbl, STBL, nothing);
    reader::lemma_kinds_nothing();
    assert(reader::kinds(vmhd + (dinf + (stbl + nothing))) =~= seq![
        VMHD as int,
        DINF as int,
        STBL as int,
    ]);
}

/// The types of the boxes of a sample table.
pub open spec fn stbl_kinds() -> Seq<int> {
    seq![STSD as int, STTS as int, STSC as int, STSZ as int, STCO as int, STSS as int]
}

/// The tables of a sample table.
#[verifier::rlimit(30)]
pub proof fn lemma_stbl(t: TrackView, offset: u32)
    requires
        track::stbl_box(t, offset).len() <= u32::MAX,
    ensures
        ({
            let stbl = payload(track::stbl_box(t, offset));
            &&& reader::is_tiled(stbl)
            &&& reader::kinds(stbl) == stbl_kinds()
            &&& reader::nth_box(stbl, STSD, 0) == Some(payload(track::stsd_box(t)))
            &&& reader::nth_box(stbl, STTS, 0) == Some(
                payload(sample_table::stts_box(t.durations)),
            )
            &&& reader::nth_box(stbl, STSC, 0) == Some(
                payload(sample_table::stsc_box(t.samples.len())),
            )
            &&& reader::nth_box(stbl, STSZ, 0) == Some(payload(sample_table::stsz_box(t.samples)))
            &&& reader::nth_box(stbl, STCO, 0) == Some(payload(sample_table::stco_box(offset)))
            &&& reader::nth_box(stbl, STSS, 0) == Some(payload(sample_table::stss_box(t.sync)))
            &&& track::stsd_box(t).len() <= u32::MAX
            &&& sample_table::stts_box(t.durations).len() <= u32::MAX
            &&& sample_table::stsz_box(t.samples).len() <= u32::MAX
            &&& sample_table::stss_box(t.sync).len() <= u32::MAX
        }),
{
    let stsd = track::stsd_box(t);
    let stts = sample_table::stts_box(t.durations);
    let stsc = sample_table::stsc_box(t.samples.len());
    let stsz = sample_table::stsz_box(t.samples);
    let stco = sample_table::stco_box(offset);
    let stss = sample_table::stss_box(t.sync);
    let nothing = Seq::<u8>::empty();
    assert(is_box(stsd, STSD)) by {
        broadcast use lemma_payload;

        reveal(track::stsd_box);
    }
    assert(is_box(stts, STTS)) by {
        broadcast use lemma_payload;

        reveal(sample_table::stts_box);
    }
    assert(is_box(stsc, STSC)) by {
        broadcast use lemma_payload;

        reveal(sample_table::stsc_box);
    }
    assert(is_box(stsz, STSZ)) by {
        broadcast use lemma_payload;

        reveal(sample_table::stsz_box);
    }
    assert(is_box(stco, STCO)) by {
        broadcast use lemma_payload;

        reveal(sample_table::stco_box);
    }
    assert(is_box(stss, STSS)) by {
        broadcast use lemma_payload;

        reveal(sample_table::stss_box);
    }
    let from_stss = stss + nothing;
    let from_stco = stco + from_stss;
    let from_stsz = stsz + from_stco;
    let from_stsc = stsc + from_stsz;
    let from_stts = stts + from_stsc;
    assert(track::stbl_box(t, offset) == framing::mp4_box(STBL, stsd + from_stts)) by {
        broadcast use bytes::group_append;

        reveal(track::stbl_box);
    }
    lemma_payload(STBL, stsd + from_stts);
    framing::lemma_box_len(STBL, stsd + from_stts);
    lemma_found(stsd, STSD, from_stts);

    lemma_next(stsd, STSD, from_stts, STTS, 0);
    lemma_found(stts, STTS, from_stsc);

    lemma_next(stsd, STSD, from_stts, STSC, 0);
    lemma_next(stts, STTS, from_stsc, STSC, 0);
    lemma_found(stsc, STSC, from_stsz);

    lemma_next(stsd, STSD, from_stts, STSZ, 0);
    lemma_next(stts, STTS, from_stsc, STSZ, 0);
    lemma_next(stsc, STSC, from_stsz, STSZ, 0);
    lemma_found(stsz, STSZ, from_stco);

    lemma_next(stsd, STSD, from_stts, STCO, 0);
    lemma_next(stts, STTS, from_stsc, STCO, 0);
    lemma_next(stsc, STSC, from_stsz, STCO, 0);
    lemma_next(stsz, STSZ, from_stco, STCO, 0);
    lemma_found(stco, STCO, from_stss);

    lemma_next(stsd, STSD, from_stts, STSS, 0);
    lemma_next(stts, STTS, from_stsc, STSS, 0);
    lemma_next(stsc, STSC, from_stsz, STSS, 0);
    lemma_next(stsz, STSZ, from_stco, STSS, 0);
    lemma_next(stco, STCO, from_stss, STSS, 0);
    lemma_found(stss, STSS, nothing);

    lemma_kind(stsd, STSD, from_stts);
    lemma_kind(stts, STTS, from_stsc);
    lemma_kind(stsc, STSC, from_stsz);
    lemma_kind(stsz, STSZ, from_stco);
    lemma_kind(stco, STCO, from_stss);
    lemma_kind(stss, STSS, nothing);
    reader::lemma_kinds_nothing();
    assert(reader::kinds(stsd + from_stts) =~= stbl_kinds());
}

/// A field that precedes boxes can be passed.
pub proof fn lemma_past(fields: Seq<u8>, rest: Seq<u8>)
    ensures
        reader::past(Some(fields + rest), fields.len() as int) == Some(rest),
{
    assert((fields + rest).skip(fields.len() as int) =~= rest);
}

/// The boxes in a sample entry, past its fields.
pub closed spec fn entry_rest(t: TrackView) -> Seq<u8> {
    t.codec.config_box() + from_auxi(t)
}

/// What an auxiliary track carries, and what follows it.
spec fn from_auxi(t: TrackView) -> Seq<u8> {
    meta::optional(t.is_alpha, track::auxi_box(t.codec.alpha_urn())) + from_colr(t)
}

/// The color information, and what follows it.
spec fn from_colr(t: TrackView) -> Seq<u8> {
    meta::optional(meta::states_colr(t.colr), boxes::colr_box(t.colr->0)) + from_clap(t)
}

/// The crop, and what follows it.
spec fn from_clap(t: TrackView) -> Seq<u8> {
    meta::optional(t.clap is Some, boxes::clap_box(t.clap->0)) + track::ccst_box(
        track::all_intra(t),
    )
}

/// The types of the boxes in a sample entry.
pub open spec fn entry_kinds(t: TrackView) -> Seq<int> {
    seq![config_kind(t.codec) as int] + kind_if(t.is_alpha, AUXI) + kind_if(
        meta::states_colr(t.colr),
        COLR,
    ) + kind_if(t.clap is Some, CLAP) + seq![CCST as int]
}

/// The type of the decoder configuration box.
pub open spec fn config_kind(codec: CodecView) -> u32 {
    match codec {
        CodecView::Av1 { .. } => AV1C,
        CodecView::Hevc { .. } => HVCC,
    }
}

/// The decoder configuration is one box.
pub proof fn lemma_config(codec: CodecView)
    ensures
        is_box(codec.config_box(), config_kind(codec)),
{
    broadcast use lemma_payload;

    reveal(boxes::av1c_box);
    reveal(hvcc::hvcc_box);
}

/// The sample entry, and the boxes in it.
#[verifier::rlimit(30)]
pub proof fn lemma_stsd(t: TrackView)
    requires
        track::stsd_box(t).len() <= u32::MAX,
    ensures
        ({
            let stsd = payload(track::stsd_box(t));
            let entry = reader::inside(reader::past(Some(stsd), 8), t.codec.sample_entry());
            &&& bytes::u32_at(stsd, 4) == 1
            &&& bytes::u32_at(stsd, 12) == t.codec.sample_entry()
            &&& reader::past(Some(stsd), 8) is Some
            &&& reader::is_tiled(reader::past(Some(stsd), 8)->0)
            &&& reader::kinds(reader::past(Some(stsd), 8)->0) == seq![
                t.codec.sample_entry() as int,
            ]
            &&& entry == Some(track::visual_fields(t.width, t.height) + entry_rest(t))
            &&& reader::past(entry, 78) == Some(entry_rest(t))
            &&& entry_rest(t).len() <= u32::MAX
        }),
{
    broadcast use framing::group_framing;

    let kind = t.codec.sample_entry();
    let entry = track::sample_entry_box(t);
    let fields = track::visual_fields(t.width, t.height);
    let head = framing::version_flags(0, 0) + bytes::be32(1);
    let nothing = Seq::<u8>::empty();
    assert(track::stsd_box(t) == framing::mp4_box(STSD, head + entry)) by {
        reveal(track::stsd_box);
    }
    lemma_payload(STSD, head + entry);
    lemma_past(head, entry);
    assert(entry == framing::mp4_box(kind, fields + entry_rest(t))) by {
        reveal(track::sample_entry_box);
    }
    lemma_payload(kind, fields + entry_rest(t));
    assert(entry + nothing =~= entry);
    lemma_found(entry, kind, nothing);
    lemma_kind(entry, kind, nothing);
    reader::lemma_kinds_nothing();
    assert(reader::kinds(entry) =~= seq![kind as int]);
    bytes::lemma_u32_at(framing::version_flags(0, 0), 1, entry);
    assert(fields.len() == 78) by {
        reveal(track::visual_fields);
    }
    lemma_past(fields, entry_rest(t));
    assert(bytes::u32_at(payload(track::stsd_box(t)), 12) == kind) by {
        reveal(framing::mp4_box);
        let size = bytes::be32(bytes::low32(8 + (fields + entry_rest(t)).len() as int));
        assert(head + entry == (head + size) + (bytes::be32(kind) + (fields + entry_rest(t))));
        bytes::lemma_u32_at(head + size, kind, fields + entry_rest(t));
    }
}

/// What a search for a type finds in a sample entry.
pub open spec fn entry_box(t: TrackView, wanted: u32) -> Option<Seq<u8>> {
    if wanted == config_kind(t.codec) {
        Some(payload(t.codec.config_box()))
    } else if wanted == AUXI && t.is_alpha {
        Some(payload(track::auxi_box(t.codec.alpha_urn())))
    } else if wanted == COLR && meta::states_colr(t.colr) {
        Some(payload(boxes::colr_box(t.colr->0)))
    } else if wanted == CLAP && t.clap is Some {
        Some(payload(boxes::clap_box(t.clap->0)))
    } else if wanted == CCST {
        Some(payload(track::ccst_box(track::all_intra(t))))
    } else {
        None
    }
}

/// Everything in a sample entry past its fields is one box.
proof fn lemma_entry_parts(t: TrackView)
    ensures
        is_box(t.codec.config_box(), config_kind(t.codec)),
        is_box(track::auxi_box(t.codec.alpha_urn()), AUXI),
        is_box(boxes::colr_box(t.colr->0), COLR),
        is_box(boxes::clap_box(t.clap->0), CLAP),
        is_box(track::ccst_box(track::all_intra(t)), CCST),
{
    lemma_config(t.codec);
    assert(is_box(track::auxi_box(t.codec.alpha_urn()), AUXI)) by {
        broadcast use lemma_payload;

        reveal(track::auxi_box);
    }
    assert(is_box(boxes::colr_box(t.colr->0), COLR)) by {
        broadcast use lemma_payload;

        reveal(boxes::colr_box);
    }
    assert(is_box(boxes::clap_box(t.clap->0), CLAP)) by {
        broadcast use lemma_payload;

        reveal(boxes::clap_box);
    }
    assert(is_box(track::ccst_box(track::all_intra(t)), CCST)) by {
        broadcast use lemma_payload;

        reveal(track::ccst_box);
    }
}

/// What a search for a type finds in a sample entry.
pub proof fn lemma_entry(t: TrackView, wanted: u32)
    requires
        entry_rest(t).len() <= u32::MAX,
    ensures
        reader::nth_box(entry_rest(t), wanted, 0) == entry_box(t, wanted),
{
    let auxi = track::auxi_box(t.codec.alpha_urn());
    let colr = boxes::colr_box(t.colr->0);
    let clap = boxes::clap_box(t.clap->0);
    let ccst = track::ccst_box(track::all_intra(t));
    let nothing = Seq::<u8>::empty();
    lemma_entry_parts(t);
    assert(meta::optional(true, ccst) + nothing =~= ccst);
    lemma_optional_box(true, t.codec.config_box(), config_kind(t.codec), from_auxi(t), wanted);
    lemma_optional_box(t.is_alpha, auxi, AUXI, from_colr(t), wanted);
    lemma_optional_box(meta::states_colr(t.colr), colr, COLR, from_clap(t), wanted);
    lemma_optional_box(t.clap is Some, clap, CLAP, ccst, wanted);
    lemma_optional_box(true, ccst, CCST, nothing, wanted);
    reader::lemma_nth_box_nothing(wanted, 0);
}

/// The types of the boxes in a sample entry, in order.
pub proof fn lemma_entry_kinds(t: TrackView)
    requires
        entry_rest(t).len() <= u32::MAX,
    ensures
        reader::is_tiled(entry_rest(t)),
        reader::kinds(entry_rest(t)) == entry_kinds(t),
{
    let auxi = track::auxi_box(t.codec.alpha_urn());
    let colr = boxes::colr_box(t.colr->0);
    let clap = boxes::clap_box(t.clap->0);
    let ccst = track::ccst_box(track::all_intra(t));
    let nothing = Seq::<u8>::empty();
    lemma_entry_parts(t);
    assert(ccst + nothing =~= ccst);
    lemma_kind(t.codec.config_box(), config_kind(t.codec), from_auxi(t));
    lemma_optional_kind(t.is_alpha, auxi, AUXI, from_colr(t));
    lemma_optional_kind(meta::states_colr(t.colr), colr, COLR, from_clap(t));
    lemma_optional_kind(t.clap is Some, clap, CLAP, ccst);
    lemma_kind(ccst, CCST, nothing);
    reader::lemma_kinds_nothing();
    assert(reader::kinds(entry_rest(t)) =~= entry_kinds(t));
}

// ─── Inside the still item ───────────────────────────────────────────

/// The location and the properties of the still item.
pub proof fn lemma_meta(item: ItemView, offset: u32)
    requires
        meta::meta_box(item, offset).len() <= u32::MAX,
    ensures
        ({
            let parts = reader::past(Some(payload(meta::meta_box(item, offset))), 4);
            &&& parts is Some
            &&& reader::is_tiled(parts->0)
            &&& reader::kinds(parts->0) == seq![
                HDLR as int,
                PITM as int,
                ILOC as int,
                IINF as int,
                IPRP as int,
            ]
            &&& reader::inside(parts, HDLR) == Some(payload(meta::hdlr_box(PICT, ""@)))
            &&& reader::inside(parts, PITM) == Some(payload(meta::pitm_box()))
            &&& reader::inside(parts, ILOC) == Some(payload(meta::iloc_box(offset, item.len)))
            &&& reader::inside(parts, IINF) == Some(
                payload(meta::iinf_box(item.codec.sample_entry())),
            )
            &&& reader::inside(parts, IPRP) == Some(payload(meta::iprp_box(item)))
            &&& meta::iprp_box(item).len() <= u32::MAX
        }),
{
    let hdlr = meta::hdlr_box(PICT, ""@);
    let pitm = meta::pitm_box();
    let iloc = meta::iloc_box(offset, item.len);
    let iinf = meta::iinf_box(item.codec.sample_entry());
    let iprp = meta::iprp_box(item);
    let nothing = Seq::<u8>::empty();
    assert(is_box(hdlr, HDLR)) by {
        broadcast use lemma_payload;

        reveal(meta::hdlr_box);
    }
    assert(is_box(pitm, PITM)) by {
        broadcast use lemma_payload;

        reveal(meta::pitm_box);
    }
    assert(is_box(iloc, ILOC)) by {
        broadcast use lemma_payload;

        reveal(meta::iloc_box);
    }
    assert(is_box(iinf, IINF)) by {
        broadcast use lemma_payload;

        reveal(meta::iinf_box);
    }
    assert(is_box(iprp, IPRP)) by {
        broadcast use lemma_payload;

        reveal(meta::iprp_box);
    }
    let from_iprp = iprp + nothing;
    let from_iinf = iinf + from_iprp;
    let from_iloc = iloc + from_iinf;
    let from_pitm = pitm + from_iloc;
    let fields = framing::version_flags(0, 0);
    assert(meta::meta_box(item, offset) == framing::mp4_box(META, fields + (hdlr + from_pitm))) by {
        broadcast use bytes::group_append;

        reveal(meta::meta_box);
    }
    lemma_payload(META, fields + (hdlr + from_pitm));
    framing::lemma_box_len(META, fields + (hdlr + from_pitm));
    framing::lemma_version_flags_len(0, 0);
    lemma_past(fields, hdlr + from_pitm);
    lemma_found(hdlr, HDLR, from_pitm);
    lemma_next(hdlr, HDLR, from_pitm, PITM, 0);
    lemma_found(pitm, PITM, from_iloc);
    lemma_next(hdlr, HDLR, from_pitm, ILOC, 0);
    lemma_next(pitm, PITM, from_iloc, ILOC, 0);
    lemma_found(iloc, ILOC, from_iinf);
    lemma_next(hdlr, HDLR, from_pitm, IINF, 0);
    lemma_next(pitm, PITM, from_iloc, IINF, 0);
    lemma_next(iloc, ILOC, from_iinf, IINF, 0);
    lemma_found(iinf, IINF, from_iprp);
    lemma_next(hdlr, HDLR, from_pitm, IPRP, 0);
    lemma_next(pitm, PITM, from_iloc, IPRP, 0);
    lemma_next(iloc, ILOC, from_iinf, IPRP, 0);
    lemma_next(iinf, IINF, from_iprp, IPRP, 0);
    lemma_found(iprp, IPRP, nothing);
    lemma_kind(hdlr, HDLR, from_pitm);
    lemma_kind(pitm, PITM, from_iloc);
    lemma_kind(iloc, ILOC, from_iinf);
    lemma_kind(iinf, IINF, from_iprp);
    lemma_kind(iprp, IPRP, nothing);
    reader::lemma_kinds_nothing();
    assert(reader::kinds(hdlr + from_pitm) =~= seq![
        HDLR as int,
        PITM as int,
        ILOC as int,
        IINF as int,
        IPRP as int,
    ]);
}

/// The properties, and their associations.
pub proof fn lemma_iprp(item: ItemView)
    requires
        meta::iprp_box(item).len() <= u32::MAX,
    ensures
        reader::is_tiled(payload(meta::iprp_box(item))),
        reader::kinds(payload(meta::iprp_box(item))) == seq![IPCO as int, IPMA as int],
        reader::nth_box(payload(meta::iprp_box(item)), IPCO, 0) == Some(
            payload(meta::ipco_box(item)),
        ),
        reader::nth_box(payload(meta::iprp_box(item)), IPMA, 0) == Some(
            payload(meta::ipma_box(item)),
        ),
        meta::ipco_box(item).len() <= u32::MAX,
{
    let ipco = meta::ipco_box(item);
    let ipma = meta::ipma_box(item);
    let nothing = Seq::<u8>::empty();
    assert(is_box(ipco, IPCO)) by {
        broadcast use lemma_payload;

        reveal(meta::ipco_box);
    }
    assert(is_box(ipma, IPMA)) by {
        broadcast use lemma_payload;

        reveal(meta::ipma_box);
    }
    assert(meta::iprp_box(item) == framing::mp4_box(IPRP, ipco + (ipma + nothing))) by {
        broadcast use bytes::group_append;

        reveal(meta::iprp_box);
    }
    lemma_payload(IPRP, ipco + (ipma + nothing));
    framing::lemma_box_len(IPRP, ipco + (ipma + nothing));
    lemma_found(ipco, IPCO, ipma + nothing);
    lemma_next(ipco, IPCO, ipma + nothing, IPMA, 0);
    lemma_found(ipma, IPMA, nothing);
    lemma_kind(ipco, IPCO, ipma + nothing);
    lemma_kind(ipma, IPMA, nothing);
    reader::lemma_kinds_nothing();
    assert(reader::kinds(ipco + (ipma + nothing)) =~= seq![IPCO as int, IPMA as int]);
}

// ─── From the file to a track ────────────────────────────────────────

/// No offset changes the length of a box that holds it.
pub proof fn lemma_offset_len(sequence: SequenceView, t: TrackView, a: u32, b: u32)
    ensures
        meta::meta_box(sequence.item(), a).len() == meta::meta_box(sequence.item(), b).len(),
        track::trak_box(t, a).len() == track::trak_box(t, b).len(),
{
    broadcast use framing::group_framing;

    assert(meta::meta_box(sequence.item(), a).len() == meta::meta_box(sequence.item(), b).len())
        by {
        reveal(meta::meta_box);
        reveal(meta::iloc_box);
    }
    assert(sample_table::stco_box(a).len() == sample_table::stco_box(b).len()) by {
        reveal(sample_table::stco_box);
    }
    assert(track::stbl_box(t, a).len() == track::stbl_box(t, b).len()) by {
        reveal(track::stbl_box);
    }
    assert(track::minf_box(t, a).len() == track::minf_box(t, b).len()) by {
        reveal(track::minf_box);
    }
    assert(track::mdia_box(t, a).len() == track::mdia_box(t, b).len()) by {
        reveal(track::mdia_box);
    }
    reveal(track::trak_box);
}

/// Everything before the media is as long, whatever the offsets are.
pub proof fn lemma_head_len(sequence: SequenceView, color: u32, alpha: u32)
    ensures
        sequence.head(color, alpha).len() == sequence.color_start() - 8,
{
    broadcast use framing::group_framing;

    lemma_offset_len(sequence, sequence.color_track(), color, 0);
    lemma_offset_len(sequence, sequence.alpha_track(), alpha, 0);
    assert(sequence.moov(color, alpha).len() == sequence.moov(0, 0).len()) by {
        reveal(SequenceView::moov);
    }
}

/// The color track, then the alpha track.
pub open spec fn nth_track(sequence: SequenceView, k: nat) -> TrackView {
    if k == 0 {
        sequence.color_track()
    } else {
        sequence.alpha_track()
    }
}

/// Where a track's samples start.
pub open spec fn nth_start(sequence: SequenceView, k: nat) -> int {
    if k == 0 {
        sequence.color_start()
    } else {
        sequence.alpha_start()
    }
}

/// Whether the file has a `k`th track.
pub open spec fn has_track(sequence: SequenceView, k: nat) -> bool {
    k == 0 || k == 1 && sequence.has_alpha()
}

/// In a file whose size 32 bits can state, every offset is stated as it is,
/// and a reader finds the still item, the media, and every track.
pub proof fn lemma_file(sequence: SequenceView)
    requires
        sequence.file().len() <= u32::MAX,
    ensures
        sequence.file().len() == sequence.alpha_start() + bytes::concat(
            sequence.alpha_samples(),
        ).len(),
        sequence.file() == sequence.with_offsets(
            sequence.color_start() as u32,
            sequence.color_start() as u32,
            sequence.alpha_start() as u32,
        ),
        0 <= sequence.color_start() <= sequence.alpha_start() <= u32::MAX,
        reader::is_tiled(sequence.file()),
        reader::kinds(sequence.file()) == seq![
            FTYP as int,
            META as int,
            MOOV as int,
            MDAT as int,
        ],
        reader::nth_box(sequence.file(), MOOV, 0) is Some,
        reader::is_tiled(reader::nth_box(sequence.file(), MOOV, 0)->0),
        reader::kinds(reader::nth_box(sequence.file(), MOOV, 0)->0) == seq![
            MVHD as int,
            TRAK as int,
        ] + kind_if(sequence.has_alpha(), TRAK),
        reader::nth_box(sequence.file(), FTYP, 0) == Some(
            payload(meta::ftyp_box(sequence.color_codec())),
        ),
        reader::nth_box(sequence.file(), META, 0) == Some(
            payload(meta::meta_box(sequence.item(), sequence.color_start() as u32)),
        ),
        meta::meta_box(sequence.item(), sequence.color_start() as u32).len() <= u32::MAX,
        reader::nth_box(sequence.file(), MDAT, 0) == Some(payload(sequence.mdat())),
        reader::inside(reader::nth_box(sequence.file(), MOOV, 0), MVHD) == Some(
            payload(sequence.mvhd()),
        ),
        forall|k: nat| #[trigger]
            has_track(sequence, k) ==> reader::track(sequence.file(), k) == Some(
                payload(
                    track::trak_box(nth_track(sequence, k), nth_start(sequence, k) as u32),
                ),
            ) && track::trak_box(nth_track(sequence, k), nth_start(sequence, k) as u32).len()
                <= u32::MAX,
        forall|k: nat|
            !has_track(sequence, k) ==> #[trigger] reader::track(sequence.file(), k) is None,
{
    broadcast use framing::group_framing;

    let color = bytes::low32(sequence.color_start());
    let alpha = bytes::low32(sequence.alpha_start());
    lemma_head_len(sequence, color, alpha);
    assert(sequence.file() == sequence.with_offsets(color, color, alpha));
    lemma_top(sequence, color, color, alpha);
    lemma_tracks(sequence, color, alpha);
    assert forall|k: nat| #[trigger] has_track(sequence, k) implies reader::track(
        sequence.file(),
        k,
    ) == Some(
        payload(track::trak_box(nth_track(sequence, k), nth_start(sequence, k) as u32)),
    ) && track::trak_box(nth_track(sequence, k), nth_start(sequence, k) as u32).len()
        <= u32::MAX by {
        assert(k == 0 || k == 1);
    }
}

/// A reader finds every table of every track.
pub proof fn lemma_track_tables(sequence: SequenceView, k: nat)
    requires
        sequence.file().len() <= u32::MAX,
        has_track(sequence, k),
    ensures
        ({
            let file = sequence.file();
            let t = nth_track(sequence, k);
            let offset = nth_start(sequence, k) as u32;
            let table = reader::sample_table(file, k);
            let media = reader::inside(reader::track(file, k), MDIA);
            let information = reader::inside(media, MINF);
            &&& reader::inside(reader::track(file, k), TKHD) == Some(payload(track::tkhd_box(t)))
            &&& reader::inside(reader::track(file, k), EDTS) == (if t.presented
                == Presentation::Once {
                None
            } else {
                Some(payload(track::edts_box(t.duration)))
            })
            &&& reader::inside(reader::track(file, k), TREF) == (if t.is_alpha {
                Some(payload(track::tref_box()))
            } else {
                None
            })
            &&& reader::track(file, k) is Some
            &&& reader::is_tiled(reader::track(file, k)->0)
            &&& reader::kinds(reader::track(file, k)->0) == trak_kinds(t)
            &&& media is Some
            &&& reader::is_tiled(media->0)
            &&& reader::kinds(media->0) == seq![MDHD as int, HDLR as int, MINF as int]
            &&& information is Some
            &&& reader::is_tiled(information->0)
            &&& reader::kinds(information->0) == seq![VMHD as int, DINF as int, STBL as int]
            &&& reader::inside(information, VMHD) == Some(payload(track::vmhd_box()))
            &&& reader::inside(information, DINF) == Some(payload(track::dinf_box()))
            &&& table is Some
            &&& reader::is_tiled(table->0)
            &&& reader::kinds(table->0) == stbl_kinds()
            &&& reader::inside(reader::inside(reader::track(file, k), MDIA), MDHD) == Some(
                payload(track::mdhd_box(t.timescale, t.duration)),
            )
            &&& reader::inside(reader::inside(reader::track(file, k), MDIA), HDLR) == Some(
                payload(track::track_hdlr_box(t.is_alpha)),
            )
            &&& reader::inside(table, STSD) == Some(payload(track::stsd_box(t)))
            &&& reader::inside(table, STTS) == Some(payload(sample_table::stts_box(t.durations)))
            &&& reader::inside(table, STSC) == Some(
                payload(sample_table::stsc_box(t.samples.len())),
            )
            &&& reader::inside(table, STSZ) == Some(payload(sample_table::stsz_box(t.samples)))
            &&& reader::inside(table, STCO) == Some(payload(sample_table::stco_box(offset)))
            &&& reader::inside(table, STSS) == Some(payload(sample_table::stss_box(t.sync)))
            &&& track::stsd_box(t).len() <= u32::MAX
            &&& sample_table::stts_box(t.durations).len() <= u32::MAX
            &&& sample_table::stsz_box(t.samples).len() <= u32::MAX
            &&& sample_table::stss_box(t.sync).len() <= u32::MAX
        }),
{
    let t = nth_track(sequence, k);
    let offset = nth_start(sequence, k) as u32;
    lemma_file(sequence);
    lemma_trak(t, offset);
    lemma_mdia(t, offset);
    lemma_minf(t, offset);
    lemma_stbl(t, offset);
}

} // verus!
