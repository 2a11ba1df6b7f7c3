//! The still item, for readers that only show images.
use vstd::prelude::*;

use crate::boxes;
use crate::boxes::{ClapBox, ClliBox, ColrBox, MdcvBox};
use crate::bytes;
use crate::codec::CodecView;
use crate::fourcc::{AV1C, CLAP, CLLI, COLR, HVCC, INFE, IPCO, ISPE, MDCV, NCLX, PIXI};
use crate::framing;
use crate::laws::coding;
use crate::laws::samples;
use crate::meta;
use crate::meta::ItemView;
use crate::navigation;
use crate::reader;
use crate::sample_table;
use crate::sequence::SequenceView;

verus! {

// ─── The item ────────────────────────────────────────────────────────

/// The file is foremost its one item.
pub proof fn law_primary_item(sequence: SequenceView)
    requires
        sequence.file().len() <= u32::MAX,
    ensures
        reader::primary_item(sequence.file()) == Some(1int),
{
    broadcast use framing::group_framing;

    navigation::lemma_file(sequence);
    navigation::lemma_meta(sequence.item(), sequence.color_start() as u32);
    let nothing = Seq::<u8>::empty();
    let pitm = navigation::payload(meta::pitm_box());
    assert(pitm == framing::version_flags(0, 0) + (bytes::be16(1) + nothing)) by {
        broadcast use navigation::lemma_payload;

        reveal(meta::pitm_box);
    }
    framing::lemma_version_first(0, 0, bytes::be16(1) + nothing);
    bytes::lemma_u16_at(framing::version_flags(0, 0), 1, nothing);
}

/// The fields of a location box.
proof fn lemma_iloc_fields(offset: u32, len: u32)
    ensures
        ({
            let iloc = navigation::payload(meta::iloc_box(offset, len));
            &&& reader::locates(iloc, 1)
            &&& bytes::u32_at(iloc, 14) == offset
            &&& bytes::u32_at(iloc, 18) == len
        }),
{
    broadcast use framing::group_framing;

    let iloc = navigation::payload(meta::iloc_box(offset, len));
    let nothing = Seq::<u8>::empty();
    let version = framing::version_flags(0, 0);
    let widths = seq![0x44u8, 0x00u8];
    let one = bytes::be16(1);
    let from_len = bytes::be32(len) + nothing;
    let from_offset = bytes::be32(offset) + from_len;
    let from_extents = one + from_offset;
    let from_reference = bytes::be16(0) + from_extents;
    let from_id = one + from_reference;
    assert(iloc == version + (widths + (one + from_id))) by {
        broadcast use navigation::lemma_payload;

        reveal(meta::iloc_box);
    }
    framing::lemma_version_first(0, 0, widths + (one + from_id));
    let before_count = version + widths;
    assert(iloc == before_count + (one + from_id));
    assert(iloc[4] == widths[0] && iloc[5] == widths[1]);
    bytes::lemma_u16_at(before_count, 1, from_id);
    let before_id = before_count + one;
    assert(iloc == before_id + from_id);
    bytes::lemma_u16_at(before_id, 1, from_reference);
    let before_reference = before_id + one;
    assert(iloc == before_reference + from_reference);
    bytes::lemma_u16_at(before_reference, 0, from_extents);
    let before_extents = before_reference + bytes::be16(0);
    assert(iloc == before_extents + from_extents);
    bytes::lemma_u16_at(before_extents, 1, from_offset);
    let before_offset = before_extents + one;
    assert(iloc == before_offset + from_offset);
    bytes::lemma_u32_at(before_offset, offset, from_len);
    assert(iloc == (before_offset + bytes::be32(offset)) + from_len);
    bytes::lemma_u32_at(before_offset + bytes::be32(offset), len, nothing);
}

/// A reader that only shows images gets the first frame's color data, or
/// nothing where there are no frames.
pub proof fn law_still_item_is_first_frame(sequence: SequenceView)
    requires
        sequence.file().len() <= u32::MAX,
    ensures
        reader::still_item(sequence.file()) == Some(
            if sequence.frames.len() > 0 {
                sequence.frames[0].color
            } else {
                Seq::empty()
            },
        ),
{
    let file = sequence.file();
    let item = sequence.item();
    let offset = sequence.color_start() as u32;
    navigation::lemma_file(sequence);
    navigation::lemma_meta(item, offset);
    law_primary_item(sequence);
    lemma_iloc_fields(offset, item.len);
    if sequence.frames.len() > 0 {
        let color = sequence.color_samples();
        samples::law_color_reads_back(sequence, 0);
        navigation::lemma_track_tables(sequence, 0);
        samples::lemma_stsz_fields(color);
        samples::lemma_stco_fields(offset);
        let stsz = navigation::payload(sample_table::stsz_box(color));
        samples::lemma_sizes_before(stsz, color, 0);
    } else {
        assert(file.subrange(offset as int, offset as int) =~= Seq::empty());
    }
}

/// The fields of an item's description.
proof fn lemma_iinf_fields(kind: u32)
    ensures
        ({
            let iinf = navigation::payload(meta::iinf_box(kind));
            let infe = reader::inside(reader::past(Some(iinf), 6), INFE);
            &&& iinf[0] == 0
            &&& infe is Some
            &&& infe->0[0] == 2
            &&& bytes::u16_at(infe->0, 4) == 1
            &&& bytes::u32_at(infe->0, 8) == kind
        }),
{
    broadcast use {framing::group_framing, reader::group_reader};

    let version = framing::version_flags(2, 0);
    let from_kind = bytes::be32(kind) + seq![0u8];
    let from_protection = bytes::be16(0) + from_kind;
    let infe = version + (bytes::be16(1) + from_protection);
    let fields = framing::version_flags(0, 0) + bytes::be16(1);
    let entry = framing::mp4_box(INFE, infe);
    assert(navigation::payload(meta::iinf_box(kind)) == fields + entry) by {
        broadcast use navigation::lemma_payload;

        reveal(meta::iinf_box);
    }
    framing::lemma_version_first(0, 0, bytes::be16(1) + entry);
    navigation::lemma_past(fields, entry);
    framing::lemma_version_first(2, 0, bytes::be16(1) + from_protection);
    bytes::lemma_u16_at(version, 1, from_protection);
    let before = version + bytes::be16(1) + bytes::be16(0);
    assert(infe == before + from_kind);
    bytes::lemma_u32_at(before, kind, seq![0u8]);
}

/// The item is of the color track's coding.
pub proof fn law_item_type_reads_back(sequence: SequenceView)
    requires
        sequence.file().len() <= u32::MAX,
    ensures
        reader::item_type(sequence.file()) is Some,
        reader::item_type(sequence.file()) == reader::coding(sequence.file(), 0),
{
    navigation::lemma_file(sequence);
    navigation::lemma_meta(sequence.item(), sequence.color_start() as u32);
    navigation::lemma_track_tables(sequence, 0);
    navigation::lemma_stsd(sequence.color_track());
    law_primary_item(sequence);
    lemma_iinf_fields(sequence.color_codec().sample_entry());
}

// ─── Properties ──────────────────────────────────────────────────────

/// The types of the item's properties: the coded size, the configuration and the
/// pixel layout, and then what else was set.
pub open spec fn property_kinds(item: ItemView) -> Seq<int> {
    seq![ISPE as int, navigation::config_kind(item.codec) as int, PIXI as int]
        + navigation::kind_if(meta::states_colr(item.colr), COLR)
        + navigation::kind_if(item.clli is Some, CLLI)
        + navigation::kind_if(item.mdcv is Some, MDCV)
        + navigation::kind_if(item.clap is Some, CLAP)
}

/// The crop, where there is one.
spec fn from_clap(item: ItemView) -> Seq<u8> {
    meta::optional(item.clap is Some, boxes::clap_box(item.clap->0)) + Seq::empty()
}

/// The mastering display, and what follows it.
spec fn from_mdcv(item: ItemView) -> Seq<u8> {
    meta::optional(item.mdcv is Some, boxes::mdcv_box(item.mdcv->0)) + from_clap(item)
}

/// The light level, and what follows it.
spec fn from_clli(item: ItemView) -> Seq<u8> {
    meta::optional(item.clli is Some, boxes::clli_box(item.clli->0)) + from_mdcv(item)
}

/// The color information, and what follows it.
spec fn from_colr(item: ItemView) -> Seq<u8> {
    meta::optional(meta::states_colr(item.colr), boxes::colr_box(item.colr->0)) + from_clli(item)
}

/// The pixel layout, and what follows it.
spec fn from_pixi(item: ItemView) -> Seq<u8> {
    meta::optional(true, meta::pixi_box(item.codec.channels(), item.codec.depth())) + from_colr(
        item,
    )
}

/// The configuration, and what follows it.
spec fn from_config(item: ItemView) -> Seq<u8> {
    meta::optional(true, item.codec.config_box()) + from_pixi(item)
}

/// All properties.
spec fn from_ispe(item: ItemView) -> Seq<u8> {
    meta::optional(true, meta::ispe_box(item.width, item.height)) + from_config(item)
}

/// Every property is one box, small enough where all of them are.
proof fn lemma_property_boxes(item: ItemView)
    requires
        meta::ipco_box(item).len() <= u32::MAX,
    ensures
        navigation::payload(meta::ipco_box(item)) == from_ispe(item),
        from_ispe(item).len() <= u32::MAX,
        navigation::is_box(meta::ispe_box(item.width, item.height), ISPE),
        navigation::is_box(item.codec.config_box(), navigation::config_kind(item.codec)),
        navigation::is_box(meta::pixi_box(item.codec.channels(), item.codec.depth()), PIXI),
        navigation::is_box(boxes::colr_box(item.colr->0), COLR),
        navigation::is_box(boxes::clli_box(item.clli->0), CLLI),
        navigation::is_box(boxes::mdcv_box(item.mdcv->0), MDCV),
        navigation::is_box(boxes::clap_box(item.clap->0), CLAP),
{
    navigation::lemma_config(item.codec);
    assert(navigation::is_box(meta::ispe_box(item.width, item.height), ISPE)) by {
        broadcast use navigation::lemma_payload;

        reveal(meta::ispe_box);
    }
    assert(navigation::is_box(meta::pixi_box(item.codec.channels(), item.codec.depth()), PIXI)) by {
        broadcast use navigation::lemma_payload;

        reveal(meta::pixi_box);
    }
    assert(navigation::is_box(boxes::colr_box(item.colr->0), COLR)) by {
        broadcast use navigation::lemma_payload;

        reveal(boxes::colr_box);
    }
    assert(navigation::is_box(boxes::clli_box(item.clli->0), CLLI)) by {
        broadcast use navigation::lemma_payload;

        reveal(boxes::clli_box);
    }
    assert(navigation::is_box(boxes::mdcv_box(item.mdcv->0), MDCV)) by {
        broadcast use navigation::lemma_payload;

        reveal(boxes::mdcv_box);
    }
    assert(navigation::is_box(boxes::clap_box(item.clap->0), CLAP)) by {
        broadcast use navigation::lemma_payload;

        reveal(boxes::clap_box);
    }
    assert(meta::ipco_box(item) == framing::mp4_box(IPCO, from_ispe(item))) by {
        broadcast use bytes::group_append;

        reveal(meta::ipco_box);
    }
    navigation::lemma_payload(IPCO, from_ispe(item));
    framing::lemma_box_len(IPCO, from_ispe(item));
}

/// Lists can be joined from the front or from the back.
proof fn lemma_joined(
    a: Seq<int>,
    b: Seq<int>,
    c: Seq<int>,
    d: Seq<int>,
    e: Seq<int>,
    f: Seq<int>,
    g: Seq<int>,
)
    ensures
        a + (b + (c + (d + (e + (f + (g + Seq::empty())))))) == a + b + c + d + e + f + g,
{
    assert(a + (b + (c + (d + (e + (f + (g + Seq::empty())))))) =~= a + b + c + d + e + f + g);
}

/// The types of the item's properties, as a reader finds them.
proof fn lemma_property_kinds(item: ItemView)
    requires
        meta::ipco_box(item).len() <= u32::MAX,
    ensures
        reader::is_tiled(navigation::payload(meta::ipco_box(item))),
        reader::kinds(navigation::payload(meta::ipco_box(item))) == property_kinds(item),
{
    let config_kind = navigation::config_kind(item.codec);
    let ispe = meta::ispe_box(item.width, item.height);
    let pixi = meta::pixi_box(item.codec.channels(), item.codec.depth());
    let colr = boxes::colr_box(item.colr->0);
    let clli = boxes::clli_box(item.clli->0);
    let mdcv = boxes::mdcv_box(item.mdcv->0);
    let clap = boxes::clap_box(item.clap->0);
    let states_colr = meta::states_colr(item.colr);
    lemma_property_boxes(item);
    navigation::lemma_optional_kind(true, ispe, ISPE, from_config(item));
    navigation::lemma_optional_kind(true, item.codec.config_box(), config_kind, from_pixi(item));
    navigation::lemma_optional_kind(true, pixi, PIXI, from_colr(item));
    navigation::lemma_optional_kind(states_colr, colr, COLR, from_clli(item));
    navigation::lemma_optional_kind(item.clli is Some, clli, CLLI, from_mdcv(item));
    navigation::lemma_optional_kind(item.mdcv is Some, mdcv, MDCV, from_clap(item));
    navigation::lemma_optional_kind(item.clap is Some, clap, CLAP, Seq::empty());
    reader::lemma_kinds_nothing();
    lemma_joined(
        navigation::kind_if(true, ISPE),
        navigation::kind_if(true, config_kind),
        navigation::kind_if(true, PIXI),
        navigation::kind_if(states_colr, COLR),
        navigation::kind_if(item.clli is Some, CLLI),
        navigation::kind_if(item.mdcv is Some, MDCV),
        navigation::kind_if(item.clap is Some, CLAP),
    );
    let always = seq![ISPE as int, config_kind as int, PIXI as int];
    assert(navigation::kind_if(true, ISPE) + navigation::kind_if(true, config_kind)
        + navigation::kind_if(true, PIXI) =~= always);
}

/// What a reader finds of a type among the item's properties.
pub open spec fn property(item: ItemView, wanted: u32) -> Option<Seq<u8>> {
    if wanted == ISPE {
        Some(navigation::payload(meta::ispe_box(item.width, item.height)))
    } else if wanted == navigation::config_kind(item.codec) {
        Some(navigation::payload(item.codec.config_box()))
    } else if wanted == PIXI {
        Some(navigation::payload(meta::pixi_box(item.codec.channels(), item.codec.depth())))
    } else if wanted == COLR && meta::states_colr(item.colr) {
        Some(navigation::payload(boxes::colr_box(item.colr->0)))
    } else if wanted == CLLI && item.clli is Some {
        Some(navigation::payload(boxes::clli_box(item.clli->0)))
    } else if wanted == MDCV && item.mdcv is Some {
        Some(navigation::payload(boxes::mdcv_box(item.mdcv->0)))
    } else if wanted == CLAP && item.clap is Some {
        Some(navigation::payload(boxes::clap_box(item.clap->0)))
    } else {
        None
    }
}

proof fn lemma_property(item: ItemView, wanted: u32)
    requires
        meta::ipco_box(item).len() <= u32::MAX,
    ensures
        reader::nth_box(navigation::payload(meta::ipco_box(item)), wanted, 0) == property(
            item,
            wanted,
        ),
{
    let config_kind = navigation::config_kind(item.codec);
    let ispe = meta::ispe_box(item.width, item.height);
    let pixi = meta::pixi_box(item.codec.channels(), item.codec.depth());
    let colr = boxes::colr_box(item.colr->0);
    let clli = boxes::clli_box(item.clli->0);
    let mdcv = boxes::mdcv_box(item.mdcv->0);
    let clap = boxes::clap_box(item.clap->0);
    let config = item.codec.config_box();
    let states_colr = meta::states_colr(item.colr);
    lemma_property_boxes(item);
    navigation::lemma_optional_box(true, ispe, ISPE, from_config(item), wanted);
    navigation::lemma_optional_box(true, config, config_kind, from_pixi(item), wanted);
    navigation::lemma_optional_box(true, pixi, PIXI, from_colr(item), wanted);
    navigation::lemma_optional_box(states_colr, colr, COLR, from_clli(item), wanted);
    navigation::lemma_optional_box(item.clli is Some, clli, CLLI, from_mdcv(item), wanted);
    navigation::lemma_optional_box(item.mdcv is Some, mdcv, MDCV, from_clap(item), wanted);
    navigation::lemma_optional_box(item.clap is Some, clap, CLAP, Seq::empty(), wanted);
    reader::lemma_nth_box_nothing(wanted, 0);
}

/// The fields of an association box.
proof fn lemma_ipma_fields(rest: Seq<u8>)
    ensures
        reader::associates(
            framing::version_flags(0, 0) + (bytes::be32(1) + bytes::be16(1)) + rest,
            1,
        ),
{
    broadcast use framing::group_framing;

    let version = framing::version_flags(0, 0);
    let from_id = bytes::be16(1) + rest;
    let ipma = version + (bytes::be32(1) + from_id);
    assert(version + (bytes::be32(1) + bytes::be16(1)) + rest == ipma);
    framing::lemma_version_first(0, 0, bytes::be32(1) + from_id);
    bytes::lemma_u32_at(version, 1, from_id);
    assert(ipma == (version + bytes::be32(1)) + from_id);
    bytes::lemma_u16_at(version + bytes::be32(1), 1, rest);
}

/// The item's properties and their associations, from the file.
pub proof fn lemma_item(sequence: SequenceView)
    requires
        sequence.file().len() <= u32::MAX,
    ensures
        reader::properties(sequence.file()) == Some(
            navigation::payload(meta::ipco_box(sequence.item())),
        ),
        meta::ipco_box(sequence.item()).len() <= u32::MAX,
        reader::associations(sequence.file()) == Some(meta::associations(sequence.item())),
{
    broadcast use framing::group_framing;

    let item = sequence.item();
    navigation::lemma_file(sequence);
    navigation::lemma_meta(item, sequence.color_start() as u32);
    navigation::lemma_iprp(item);
    let list = meta::associations(item);
    let before = framing::version_flags(0, 0) + (bytes::be32(1) + bytes::be16(1));
    let ipma = navigation::payload(meta::ipma_box(item));
    assert(ipma == before + (seq![list.len() as u8] + list)) by {
        broadcast use navigation::lemma_payload;

        reveal(meta::ipma_box);
    }
    lemma_ipma_fields(seq![list.len() as u8] + list);
    law_primary_item(sequence);
    assert(ipma[10] == list.len());
    assert(ipma.subrange(11, 11 + list.len() as int) =~= list);
}

/// The types of the optional descriptive properties.
spec fn descriptive_kinds(item: ItemView) -> Seq<int> {
    navigation::kind_if(meta::states_colr(item.colr), COLR)
        + navigation::kind_if(item.clli is Some, CLLI)
        + navigation::kind_if(item.mdcv is Some, MDCV)
}

/// There are as many descriptive properties as were counted, and none of them
/// is a configuration or a crop.
proof fn lemma_descriptive_kinds(item: ItemView)
    ensures
        descriptive_kinds(item).len() == meta::descriptive_count(item),
        forall|i: int|
            0 <= i < descriptive_kinds(item).len() ==> {
                ||| #[trigger] descriptive_kinds(item)[i] == COLR
                ||| descriptive_kinds(item)[i] == CLLI
                ||| descriptive_kinds(item)[i] == MDCV
            },
{
    let a = navigation::kind_if(meta::states_colr(item.colr), COLR);
    let b = navigation::kind_if(item.clli is Some, CLLI);
    let c = navigation::kind_if(item.mdcv is Some, MDCV);
    assert forall|i: int| 0 <= i < descriptive_kinds(item).len() implies {
        ||| #[trigger] descriptive_kinds(item)[i] == COLR
        ||| descriptive_kinds(item)[i] == CLLI
        ||| descriptive_kinds(item)[i] == MDCV
    } by {
        if i < a.len() {
            assert(descriptive_kinds(item)[i] == a[i]);
        } else if i < a.len() + b.len() {
            assert(descriptive_kinds(item)[i] == b[i - a.len()]);
        } else {
            assert(descriptive_kinds(item)[i] == c[i - a.len() - b.len()]);
        }
    }
}

/// The associations of an item fit the types of its properties.
proof fn lemma_associations(item: ItemView)
    ensures
        meta::associations(item).len() == property_kinds(item).len(),
        forall|i: int|
            0 <= i < property_kinds(item).len() ==> {
                &&& (#[trigger] meta::associations(item)[i]) % 0x80 == i + 1
                &&& meta::associations(item)[i] >= 0x80 <==> property_kinds(item)[i] == AV1C
                    || property_kinds(item)[i] == HVCC || property_kinds(item)[i] == CLAP
            },
{
    let kinds = property_kinds(item);
    let list = meta::associations(item);
    let first = seq![ISPE as int, navigation::config_kind(item.codec) as int, PIXI as int];
    let described = descriptive_kinds(item);
    let crop = navigation::kind_if(item.clap is Some, CLAP);
    let n = meta::descriptive_count(item);
    lemma_descriptive_kinds(item);
    assert(kinds =~= first + (described + crop));
    assert forall|i: int| 0 <= i < kinds.len() implies {
        &&& (#[trigger] list[i]) % 0x80 == i + 1
        &&& list[i] >= 0x80 <==> kinds[i] == AV1C || kinds[i] == HVCC || kinds[i] == CLAP
    } by {
        if i < 3 {
            assert(kinds[i] == first[i]);
            assert(list[i] == seq![0x01u8, 0x82u8, 0x03u8][i]);
        } else if i < 3 + n {
            assert(kinds[i] == described[i - 3]);
            assert(list[i] == i + 1);
        } else {
            assert(i == 3 + n && kinds[i] == CLAP);
            assert(list[i] == 0x80 + i + 1);
        }
    }
}

/// Every property is associated with the item by its place among the
/// properties, and is essential exactly where a reader that ignored it would
/// decode or show something else: the configuration and the crop.
pub proof fn law_associations(sequence: SequenceView)
    requires
        sequence.file().len() <= u32::MAX,
    ensures
        reader::properties(sequence.file()) is Some,
        reader::associations(sequence.file()) is Some,
        ({
            let kinds = reader::kinds(reader::properties(sequence.file())->0);
            let list = reader::associations(sequence.file())->0;
            &&& list.len() == kinds.len()
            &&& forall|i: int|
                0 <= i < kinds.len() ==> {
                    &&& (#[trigger] list[i]) % 0x80 == i + 1
                    &&& list[i] >= 0x80 <==> kinds[i] == AV1C || kinds[i] == HVCC || kinds[i]
                        == CLAP
                }
        }),
{
    lemma_item(sequence);
    lemma_property_kinds(sequence.item());
    lemma_associations(sequence.item());
}

/// Every property that was set reads back, and no other is there. Color
/// information that a reader assumes anyway counts as not set.
pub proof fn law_properties_read_back(sequence: SequenceView, wanted: u32)
    requires
        sequence.file().len() <= u32::MAX,
    ensures
        reader::properties(sequence.file()) is Some,
        reader::is_tiled(reader::properties(sequence.file())->0),
        reader::kinds(reader::properties(sequence.file())->0) == property_kinds(sequence.item()),
        reader::inside(reader::properties(sequence.file()), wanted) == property(
            sequence.item(),
            wanted,
        ),
{
    lemma_item(sequence);
    lemma_property_kinds(sequence.item());
    lemma_property(sequence.item(), wanted);
}

/// The item and every track are cropped alike.
pub proof fn law_item_is_cropped_like_the_tracks(sequence: SequenceView, k: nat)
    requires
        sequence.file().len() <= u32::MAX,
        navigation::has_track(sequence, k),
    ensures
        reader::inside(reader::properties(sequence.file()), CLAP) == reader::inside(
            reader::entry_boxes(sequence.file(), k, sequence.color_codec().sample_entry()),
            CLAP,
        ),
{
    law_properties_read_back(sequence, CLAP);
    coding::law_crop_reads_back(sequence, k);
}

/// The color track states the same color information as the item.
pub proof fn law_color_is_stated_alike(sequence: SequenceView)
    requires
        sequence.file().len() <= u32::MAX,
    ensures
        reader::inside(
            reader::entry_boxes(sequence.file(), 0, sequence.color_codec().sample_entry()),
            COLR,
        ) == reader::inside(reader::properties(sequence.file()), COLR),
{
    law_properties_read_back(sequence, COLR);
    coding::law_color_is_stated_on_the_track(sequence);
}

// ─── What the properties say ─────────────────────────────────────────

/// The coded size reads back.
pub proof fn law_coded_size_reads_back(width: u32, height: u32)
    ensures
        ({
            let ispe = navigation::payload(meta::ispe_box(width, height));
            &&& bytes::u32_at(ispe, 4) == width
            &&& bytes::u32_at(ispe, 8) == height
            &&& ispe.len() == 12
        }),
{
    broadcast use framing::group_framing;

    let ispe = navigation::payload(meta::ispe_box(width, height));
    let head = framing::version_flags(0, 0);
    let nothing = Seq::<u8>::empty();
    assert(ispe == head + (bytes::be32(width) + bytes::be32(height))) by {
        broadcast use navigation::lemma_payload;

        reveal(meta::ispe_box);
    }
    bytes::lemma_u32_at(head, width, bytes::be32(height));
    assert(ispe == (head + bytes::be32(width)) + (bytes::be32(height) + nothing));
    bytes::lemma_u32_at(head + bytes::be32(width), height, nothing);
}

/// The pixel layout states each channel's bits: one channel where the picture is
/// monochrome, and otherwise three.
pub proof fn law_pixel_layout_reads_back(codec: CodecView)
    ensures
        ({
            let pixi = navigation::payload(meta::pixi_box(codec.channels(), codec.depth()));
            &&& pixi[4] == (if match codec {
                CodecView::Av1 { config, .. } => config.monochrome,
                CodecView::Hevc { config } => config.chroma_format_idc == 0,
            } {
                1
            } else {
                3int
            })
            &&& pixi.len() == 5 + pixi[4]
            &&& forall|i: int|
                5 <= i < pixi.len() ==> #[trigger] pixi[i] == (match codec {
                    CodecView::Av1 { config, .. } => if config.twelve_bit {
                        12
                    } else {
                        8 + 2 * (if config.high_bitdepth {
                            1int
                        } else {
                            0
                        })
                    },
                    CodecView::Hevc { config } => config.bit_depth_luma as int,
                })
        }),
{
    broadcast use framing::group_framing;

    let channels = codec.channels();
    let depth = codec.depth();
    let depths = Seq::new(channels as nat, |i: int| depth);
    assert(navigation::payload(meta::pixi_box(channels, depth)) == framing::version_flags(0, 0) + (
    seq![channels] + depths)) by {
        broadcast use navigation::lemma_payload;

        reveal(meta::pixi_box);
    }
}

/// Color information reads back.
pub proof fn law_color_information_reads_back(colr: ColrBox)
    ensures
        ({
            let record = navigation::payload(boxes::colr_box(colr));
            &&& bytes::u32_at(record, 0) == NCLX
            &&& bytes::u16_at(record, 4) == colr.color_primaries
            &&& bytes::u16_at(record, 6) == colr.transfer_characteristics
            &&& bytes::u16_at(record, 8) == colr.matrix_coefficients
            &&& record[10] == (if colr.full_range_flag {
                0x80
            } else {
                0int
            })
            &&& record.len() == 11
        }),
{
    broadcast use framing::group_framing;

    let nothing = Seq::<u8>::empty();
    let range = seq![
        if colr.full_range_flag { 0x80u8 } else { 0 },
    ];
    let a = bytes::be32(NCLX);
    let b = bytes::be16(colr.color_primaries);
    let c = bytes::be16(colr.transfer_characteristics);
    let d = bytes::be16(colr.matrix_coefficients);
    let record = navigation::payload(boxes::colr_box(colr));
    assert(record == a + (b + (c + (d + range)))) by {
        broadcast use navigation::lemma_payload;

        reveal(boxes::colr_box);
    }
    assert(record =~= nothing + (a + (b + (c + (d + range)))));
    bytes::lemma_u32_at(nothing, NCLX, b + (c + (d + range)));
    bytes::lemma_u16_at(a, colr.color_primaries, c + (d + range));
    assert(record == (a + b) + (c + (d + range)));
    bytes::lemma_u16_at(a + b, colr.transfer_characteristics, d + range);
    assert(record == (a + b + c) + (d + range));
    bytes::lemma_u16_at(a + b + c, colr.matrix_coefficients, range);
    assert(record == (a + b + c + d) + range);
}

/// The light level reads back.
pub proof fn law_light_level_reads_back(clli: ClliBox)
    ensures
        ({
            let record = navigation::payload(boxes::clli_box(clli));
            &&& bytes::u16_at(record, 0) == clli.max_content_light_level
            &&& bytes::u16_at(record, 2) == clli.max_pic_average_light_level
            &&& record.len() == 4
        }),
{
    broadcast use framing::group_framing;

    let nothing = Seq::<u8>::empty();
    let a = bytes::be16(clli.max_content_light_level);
    let b = bytes::be16(clli.max_pic_average_light_level);
    let record = navigation::payload(boxes::clli_box(clli));
    assert(record == a + b) by {
        broadcast use navigation::lemma_payload;

        reveal(boxes::clli_box);
    }
    assert(record =~= nothing + (a + b));
    bytes::lemma_u16_at(nothing, clli.max_content_light_level, b);
    assert(record =~= a + (b + nothing));
    bytes::lemma_u16_at(a, clli.max_pic_average_light_level, nothing);
}

/// The mastering display reads back: three primaries and the white point, each
/// as x and y, and the range of luminance.
#[verifier::rlimit(30)]
pub proof fn law_mastering_display_reads_back(mdcv: MdcvBox)
    ensures
        ({
            let record = navigation::payload(boxes::mdcv_box(mdcv));
            &&& bytes::u16_at(record, 0) == mdcv.primaries[0].0
            &&& bytes::u16_at(record, 2) == mdcv.primaries[0].1
            &&& bytes::u16_at(record, 4) == mdcv.primaries[1].0
            &&& bytes::u16_at(record, 6) == mdcv.primaries[1].1
            &&& bytes::u16_at(record, 8) == mdcv.primaries[2].0
            &&& bytes::u16_at(record, 10) == mdcv.primaries[2].1
            &&& bytes::u16_at(record, 12) == mdcv.white_point.0
            &&& bytes::u16_at(record, 14) == mdcv.white_point.1
            &&& bytes::u32_at(record, 16) == mdcv.max_luminance
            &&& bytes::u32_at(record, 20) == mdcv.min_luminance
            &&& record.len() == 24
        }),
{
    broadcast use framing::group_framing;

    let nothing = Seq::<u8>::empty();
    let first = boxes::chromaticity(mdcv.primaries[0]);
    let second = boxes::chromaticity(mdcv.primaries[1]);
    let third = boxes::chromaticity(mdcv.primaries[2]);
    let white = boxes::chromaticity(mdcv.white_point);
    let most = bytes::be32(mdcv.max_luminance);
    let least = bytes::be32(mdcv.min_luminance);
    let record = navigation::payload(boxes::mdcv_box(mdcv));
    assert(record == first + second + third + white + most + least) by {
        broadcast use navigation::lemma_payload;

        reveal(boxes::mdcv_box);
    }
    assert(record =~= nothing + (first + (second + third + white + most + least)));
    lemma_chromaticity(nothing, mdcv.primaries[0], second + third + white + most + least);
    assert(record =~= first + (second + (third + white + most + least)));
    lemma_chromaticity(first, mdcv.primaries[1], third + white + most + least);
    assert(record =~= (first + second) + (third + (white + most + least)));
    lemma_chromaticity(first + second, mdcv.primaries[2], white + most + least);
    assert(record =~= (first + second + third) + (white + (most + least)));
    lemma_chromaticity(first + second + third, mdcv.white_point, most + least);
    assert(record =~= (first + second + third + white) + (most + least));
    bytes::lemma_u32_at(first + second + third + white, mdcv.max_luminance, least);
    assert(record =~= (first + second + third + white + most) + (least + nothing));
    bytes::lemma_u32_at(first + second + third + white + most, mdcv.min_luminance, nothing);
}

/// A point reads back as its x and its y.
proof fn lemma_chromaticity(before: Seq<u8>, point: (u16, u16), after: Seq<u8>)
    ensures
        bytes::u16_at(before + (boxes::chromaticity(point) + after), before.len() as int)
            == point.0,
        bytes::u16_at(before + (boxes::chromaticity(point) + after), before.len() as int + 2)
            == point.1,
{
    broadcast use bytes::group_append;

    let x = bytes::be16(point.0);
    let y = bytes::be16(point.1);
    let s = before + (boxes::chromaticity(point) + after);
    assert(s == before + (x + (y + after)));
    bytes::lemma_u16_at(before, point.0, y + after);
    assert(s =~= (before + x) + (y + after));
    bytes::lemma_u16_at(before + x, point.1, after);
}

/// The 32-bit field at `pos` as a signed number.
pub open spec fn i32_at(s: Seq<u8>, pos: int) -> int {
    if bytes::u32_at(s, pos) < 0x8000_0000 {
        bytes::u32_at(s, pos)
    } else {
        bytes::u32_at(s, pos) - 0x1_0000_0000
    }
}

/// The clean aperture reads back: the size, and the offsets with their signs.
#[verifier::rlimit(30)]
pub proof fn law_clean_aperture_reads_back(clap: ClapBox)
    ensures
        ({
            let record = navigation::payload(boxes::clap_box(clap));
            &&& bytes::u32_at(record, 0) == clap.width_n
            &&& bytes::u32_at(record, 4) == clap.width_d
            &&& bytes::u32_at(record, 8) == clap.height_n
            &&& bytes::u32_at(record, 12) == clap.height_d
            &&& i32_at(record, 16) == clap.horiz_off_n
            &&& bytes::u32_at(record, 20) == clap.horiz_off_d
            &&& i32_at(record, 24) == clap.vert_off_n
            &&& bytes::u32_at(record, 28) == clap.vert_off_d
            &&& record.len() == 32
        }),
{
    broadcast use {
        framing::group_framing,
        coding::lemma_table_push,
        bytes::lemma_be32_table_len,
    };

    let horiz = boxes::twos_complement(clap.horiz_off_n);
    let vert = boxes::twos_complement(clap.vert_off_n);
    let nothing = Seq::<u8>::empty();
    let none = Seq::<u32>::empty();
    let first = none.push(clap.width_n);
    let fields = first.push(clap.width_d).push(clap.height_n).push(clap.height_d).push(horiz).push(
        clap.horiz_off_d,
    ).push(vert).push(clap.vert_off_d);
    let record = navigation::payload(boxes::clap_box(clap));
    assert(bytes::be32_table(none) =~= nothing);
    assert(bytes::be32_table(first) =~= bytes::be32(clap.width_n));
    assert(record == bytes::be32_table(fields)) by {
        broadcast use navigation::lemma_payload;

        reveal(boxes::clap_box);
    }
    assert(record =~= nothing + (bytes::be32_table(fields) + nothing));
    bytes::lemma_be32_table_at(nothing, fields, nothing, 0);
    bytes::lemma_be32_table_at(nothing, fields, nothing, 1);
    bytes::lemma_be32_table_at(nothing, fields, nothing, 2);
    bytes::lemma_be32_table_at(nothing, fields, nothing, 3);
    bytes::lemma_be32_table_at(nothing, fields, nothing, 4);
    bytes::lemma_be32_table_at(nothing, fields, nothing, 5);
    bytes::lemma_be32_table_at(nothing, fields, nothing, 6);
    bytes::lemma_be32_table_at(nothing, fields, nothing, 7);
}

} // verus!
