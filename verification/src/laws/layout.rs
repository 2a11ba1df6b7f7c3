//! What a file is laid out as, whatever its frames are coded in.
use vstd::prelude::*;

use crate::fourcc::{
    CLAP, CLLI, COLR, DINF, EDTS, FTYP, HDLR, IINF, ILOC, IPCO, IPMA, IPRP, ISPE, MDAT, MDCV, MDHD,
    MDIA, META, MINF, MOOV, MVHD, PITM, STBL, STCO, STSC, STSD, STSS, STSZ, STTS, TKHD, TRAK, TREF,
    VMHD,
};
use crate::laws::item;
use crate::navigation;
use crate::reader;
use crate::sequence::SequenceView;
use crate::track;

verus! {

/// A file is its type, the still item, the movie and the media; the still item
/// is described by five boxes, the last of them its properties and their
/// associations; and the movie is its header and its tracks: in this order, and
/// with no byte between or after them.
pub proof fn law_file_order(sequence: SequenceView)
    requires
        sequence.file().len() <= u32::MAX,
    ensures
        reader::is_tiled(sequence.file()),
        reader::kinds(sequence.file()) == seq![
            FTYP as int,
            META as int,
            MOOV as int,
            MDAT as int,
        ],
        reader::item_boxes(sequence.file()) is Some,
        reader::is_tiled(reader::item_boxes(sequence.file())->0),
        reader::kinds(reader::item_boxes(sequence.file())->0) == seq![
            HDLR as int,
            PITM as int,
            ILOC as int,
            IINF as int,
            IPRP as int,
        ],
        ({
            let properties = reader::inside(reader::item_boxes(sequence.file()), IPRP);
            &&& properties is Some
            &&& reader::is_tiled(properties->0)
            &&& reader::kinds(properties->0) == seq![IPCO as int, IPMA as int]
        }),
        reader::nth_box(sequence.file(), MOOV, 0) is Some,
        reader::is_tiled(reader::nth_box(sequence.file(), MOOV, 0)->0),
        reader::kinds(reader::nth_box(sequence.file(), MOOV, 0)->0) == (
        if sequence.has_alpha() {
            seq![MVHD as int, TRAK as int, TRAK as int]
        } else {
            seq![MVHD as int, TRAK as int]
        }),
{
    navigation::lemma_file(sequence);
    navigation::lemma_meta(sequence.item(), sequence.color_start() as u32);
    navigation::lemma_iprp(sequence.item());
}

/// A track is its header, an edit list where it repeats, its media, and a
/// reference where it is auxiliary; its media is headers and a sample table of
/// six boxes, in this order and nothing else.
pub proof fn law_track_order(sequence: SequenceView, k: nat)
    requires
        sequence.file().len() <= u32::MAX,
        navigation::has_track(sequence, k),
    ensures
        ({
            let found = reader::track(sequence.file(), k);
            let media = reader::inside(found, MDIA);
            let information = reader::inside(media, MINF);
            let table = reader::sample_table(sequence.file(), k);
            &&& found is Some && media is Some && information is Some && table is Some
            &&& reader::is_tiled(found->0)
            &&& reader::kinds(found->0) == seq![TKHD as int] + navigation::kind_if(
                sequence.image.loop_count != 1,
                EDTS,
            ) + seq![MDIA as int] + navigation::kind_if(k == 1, TREF)
            &&& reader::is_tiled(media->0)
            &&& reader::kinds(media->0) == seq![MDHD as int, HDLR as int, MINF as int]
            &&& reader::is_tiled(information->0)
            &&& reader::kinds(information->0) == seq![VMHD as int, DINF as int, STBL as int]
            &&& reader::is_tiled(table->0)
            &&& reader::kinds(table->0) == seq![
                STSD as int,
                STTS as int,
                STSC as int,
                STSZ as int,
                STCO as int,
                STSS as int,
            ]
        }),
{
    navigation::lemma_track_tables(sequence, k);
}

/// Whether two sequences agree in all that their tracks are laid out by.
pub open spec fn laid_out_alike(a: SequenceView, b: SequenceView) -> bool {
    &&& a.frames == b.frames
    &&& a.width == b.width
    &&& a.height == b.height
    &&& a.image.timescale == b.image.timescale
    &&& a.image.loop_count == b.image.loop_count
    &&& a.image.clap == b.image.clap
}

/// Everything in a track but its sample entry and the position of its chunk is
/// container structure: the headers, the reference, the tables of sizes,
/// durations and sync samples, and the order of the boxes are the same whatever
/// the coding is.
pub proof fn law_tables_do_not_depend_on_coding(a: SequenceView, b: SequenceView, k: nat, kind: u32)
    requires
        a.file().len() <= u32::MAX,
        b.file().len() <= u32::MAX,
        laid_out_alike(a, b),
        navigation::has_track(a, k),
        navigation::has_track(b, k),
    ensures
        ({
            let tracks = (reader::track(a.file(), k), reader::track(b.file(), k));
            let media = (reader::inside(tracks.0, MDIA), reader::inside(tracks.1, MDIA));
            let information = (reader::inside(media.0, MINF), reader::inside(media.1, MINF));
            let tables = (
                reader::sample_table(a.file(), k),
                reader::sample_table(b.file(), k),
            );
            &&& tracks.0 is Some && tracks.1 is Some
            &&& reader::kinds(tracks.0->0) == reader::kinds(tracks.1->0)
            &&& kind == TKHD || kind == EDTS || kind == TREF ==> reader::inside(tracks.0, kind)
                == reader::inside(tracks.1, kind)
            &&& media.0 is Some && media.1 is Some
            &&& reader::kinds(media.0->0) == reader::kinds(media.1->0)
            &&& kind == MDHD || kind == HDLR ==> reader::inside(media.0, kind) == reader::inside(
                media.1,
                kind,
            )
            &&& information.0 is Some && information.1 is Some
            &&& reader::kinds(information.0->0) == reader::kinds(information.1->0)
            &&& kind == VMHD || kind == DINF ==> reader::inside(information.0, kind)
                == reader::inside(information.1, kind)
            &&& tables.0 is Some && tables.1 is Some
            &&& reader::kinds(tables.0->0) == reader::kinds(tables.1->0)
            &&& kind == STTS || kind == STSC || kind == STSZ || kind == STSS ==> reader::inside(
                tables.0,
                kind,
            ) == reader::inside(tables.1, kind)
        }),
{
    navigation::lemma_track_tables(a, k);
    navigation::lemma_track_tables(b, k);
    let t = navigation::nth_track(a, k);
    let u = navigation::nth_track(b, k);
    assert(track::tkhd_box(t) == track::tkhd_box(u)) by {
        reveal(track::tkhd_box);
    }
}

/// The movie's header is the same whatever the coding of its tracks is.
pub proof fn law_movie_header_does_not_depend_on_coding(a: SequenceView, b: SequenceView)
    requires
        a.file().len() <= u32::MAX,
        b.file().len() <= u32::MAX,
        laid_out_alike(a, b),
        a.has_alpha() == b.has_alpha(),
    ensures
        reader::inside(reader::nth_box(a.file(), MOOV, 0), MVHD) is Some,
        reader::inside(reader::nth_box(a.file(), MOOV, 0), MVHD) == reader::inside(
            reader::nth_box(b.file(), MOOV, 0),
            MVHD,
        ),
{
    navigation::lemma_file(a);
    navigation::lemma_file(b);
}

/// Whether two sequences agree in all that describes their still items but the coding.
pub open spec fn described_alike(a: SequenceView, b: SequenceView) -> bool {
    &&& a.width == b.width
    &&& a.height == b.height
    &&& a.image.colr == b.image.colr
    &&& a.image.clli == b.image.clli
    &&& a.image.mdcv == b.image.mdcv
    &&& a.image.clap == b.image.clap
}

/// What declares the still item, its size, color, light and crop, and the
/// associations are the same whatever the coding is.
pub proof fn law_item_does_not_depend_on_coding(a: SequenceView, b: SequenceView, kind: u32)
    requires
        a.file().len() <= u32::MAX,
        b.file().len() <= u32::MAX,
        described_alike(a, b),
    ensures
        kind == HDLR || kind == PITM ==> {
            &&& reader::inside(reader::item_boxes(a.file()), kind) is Some
            &&& reader::inside(reader::item_boxes(a.file()), kind) == reader::inside(
                reader::item_boxes(b.file()),
                kind,
            )
        },
        kind == ISPE || kind == COLR || kind == CLLI || kind == MDCV || kind == CLAP
            ==> reader::inside(reader::properties(a.file()), kind) == reader::inside(
            reader::properties(b.file()),
            kind,
        ),
        reader::associations(a.file()) is Some,
        reader::associations(a.file()) == reader::associations(b.file()),
{
    navigation::lemma_file(a);
    navigation::lemma_file(b);
    navigation::lemma_meta(a.item(), a.color_start() as u32);
    navigation::lemma_meta(b.item(), b.color_start() as u32);
    item::law_properties_read_back(a, kind);
    item::law_properties_read_back(b, kind);
    item::lemma_item(a);
    item::lemma_item(b);
}

} // verus!
