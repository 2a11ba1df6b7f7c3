//! The file type and the still item, declared for readers that only show images.
use vstd::prelude::*;

use crate::boxes;
use crate::boxes::{write_clli, write_colr_nclx, write_mdcv, ClapBox, ClliBox, ColrBox, MdcvBox};
use crate::bytes;
use crate::bytes::{write_bytes, write_u16, write_u32, write_zeros};
use crate::codec::{CodecConfig, CodecView};
use crate::fourcc::{
    AVIF, AVIS, FTYP, HDLR, HEIC, HEVC, IINF, ILOC, INFE, IPCO, IPMA, IPRP, ISO8, ISPE, META,
    MIAF, MIF1, MSF1, PICT, PITM, PIXI,
};
use crate::framing;
use crate::framing::{begin_box, end_box, write_fullbox};

verus! {

/// What the item's offset field holds until the media's position is known.
pub const ILOC_PLACEHOLDER: u32 = 0xDEAD_BEE0;

// ─── Model ───────────────────────────────────────────────────────────

/// What stands behind an optional reference.
pub open spec fn value_of<T>(o: Option<&T>) -> Option<T> {
    match o {
        Some(v) => Some(*v),
        None => None,
    }
}

/// What the still item is described by.
#[derive(Clone, Copy)]
struct Item<'a> {
    width: u32,
    height: u32,
    codec: CodecConfig<'a>,
    len: u32,
    colr: Option<&'a ColrBox>,
    clli: Option<&'a ClliBox>,
    mdcv: Option<&'a MdcvBox>,
    clap: Option<&'a ClapBox>,
}

impl<'a> View for Item<'a> {
    type V = ItemView;

    closed spec fn view(&self) -> ItemView {
        ItemView {
            width: self.width,
            height: self.height,
            codec: self.codec@,
            len: self.len,
            colr: value_of(self.colr),
            clli: value_of(self.clli),
            mdcv: value_of(self.mdcv),
            clap: value_of(self.clap),
        }
    }
}

/// What the still item is described by.
pub struct ItemView {
    pub width: u32,
    pub height: u32,
    pub codec: CodecView,
    /// The length of the item's data, which is the first frame's.
    pub len: u32,
    pub colr: Option<ColrBox>,
    pub clli: Option<ClliBox>,
    pub mdcv: Option<MdcvBox>,
    pub clap: Option<ClapBox>,
}

/// The `ftyp` box: the major brand, the minor version, and the compatible brands.
#[verifier::opaque]
pub open spec fn ftyp_box(codec: CodecView) -> Seq<u8> {
    framing::mp4_box(
        FTYP,
        match codec {
            CodecView::Av1 { .. } => bytes::be32(AVIS) + bytes::be32(0) + bytes::be32(AVIS)
                + bytes::be32(AVIF) + bytes::be32(MIF1) + bytes::be32(MIAF) + bytes::be32(ISO8),
            CodecView::Hevc { .. } => bytes::be32(HEVC) + bytes::be32(0) + bytes::be32(MIF1)
                + bytes::be32(HEIC) + bytes::be32(MIAF) + bytes::be32(MSF1) + bytes::be32(ISO8)
                + bytes::be32(HEVC),
        },
    )
}

/// A handler declaration: what the media is, and a name for people.
#[verifier::opaque]
pub open spec fn hdlr_box(handler: u32, name: Seq<char>) -> Seq<u8> {
    framing::full_box(
        HDLR,
        0,
        0,
        bytes::be32(0) + bytes::be32(handler) + bytes::zeros(12) + vstd::utf8::encode_utf8(name)
            + seq![0u8],
    )
}

/// The primary item is item 1.
#[verifier::opaque]
pub open spec fn pitm_box() -> Seq<u8> {
    framing::full_box(PITM, 0, 0, bytes::be16(1))
}

/// Item 1 lies in one extent of `len` bytes at `offset`.
#[verifier::opaque]
pub open spec fn iloc_box(offset: u32, len: u32) -> Seq<u8> {
    framing::full_box(
        ILOC,
        0,
        0,
        seq![0x44u8, 0x00u8] + bytes::be16(1) + bytes::be16(1) + bytes::be16(0) + bytes::be16(1)
            + bytes::be32(offset) + bytes::be32(len),
    )
}

/// Item 1 is of type `kind`.
#[verifier::opaque]
pub open spec fn iinf_box(kind: u32) -> Seq<u8> {
    framing::full_box(
        IINF,
        0,
        0,
        bytes::be16(1) + framing::full_box(
            INFE,
            2,
            0,
            bytes::be16(1) + bytes::be16(0) + bytes::be32(kind) + seq![0u8],
        ),
    )
}

/// The coded size.
#[verifier::opaque]
pub open spec fn ispe_box(width: u32, height: u32) -> Seq<u8> {
    framing::full_box(ISPE, 0, 0, bytes::be32(width) + bytes::be32(height))
}

/// The number of channels, and the bits of each.
#[verifier::opaque]
pub open spec fn pixi_box(channels: u8, depth: u8) -> Seq<u8> {
    framing::full_box(
        PIXI,
        0,
        0,
        seq![channels] + Seq::new(channels as nat, |i: int| depth),
    )
}

/// Whether color information is written: what a reader assumes anyway is not.
pub open spec fn states_colr(colr: Option<ColrBox>) -> bool {
    colr is Some && colr->0 != boxes::default_colr()
}

/// A property that is written only where it applies.
pub open spec fn optional(applies: bool, property: Seq<u8>) -> Seq<u8> {
    if applies {
        property
    } else {
        Seq::empty()
    }
}

/// The item's properties, in the order that associations count them.
#[verifier::opaque]
pub open spec fn ipco_box(item: ItemView) -> Seq<u8> {
    framing::mp4_box(
        IPCO,
        ispe_box(item.width, item.height) + item.codec.config_box() + pixi_box(
            item.codec.channels(),
            item.codec.depth(),
        ) + optional(states_colr(item.colr), boxes::colr_box(item.colr->0)) + optional(
            item.clli is Some,
            boxes::clli_box(item.clli->0),
        ) + optional(item.mdcv is Some, boxes::mdcv_box(item.mdcv->0)) + optional(
            item.clap is Some,
            boxes::clap_box(item.clap->0),
        ),
    )
}

/// How many of the optional descriptive properties are written.
pub open spec fn descriptive_count(item: ItemView) -> int {
    (if states_colr(item.colr) { 1int } else { 0 }) + (if item.clli is Some { 1int } else { 0 })
        + (if item.mdcv is Some { 1int } else { 0 })
}

/// The associations: every property by its place, with the high bit set where
/// a reader must not ignore it. Those are the configuration and the crop.
pub open spec fn associations(item: ItemView) -> Seq<u8> {
    let n = descriptive_count(item);
    seq![0x01u8, 0x82u8, 0x03u8] + Seq::new(n as nat, |i: int| (4 + i) as u8) + optional(
        item.clap is Some,
        seq![(0x80 + 4 + n) as u8],
    )
}

/// Item 1 has every property.
#[verifier::opaque]
pub open spec fn ipma_box(item: ItemView) -> Seq<u8> {
    framing::full_box(
        IPMA,
        0,
        0,
        bytes::be32(1) + bytes::be16(1) + seq![associations(item).len() as u8] + associations(item),
    )
}

/// The properties and their associations.
#[verifier::opaque]
pub open spec fn iprp_box(item: ItemView) -> Seq<u8> {
    framing::mp4_box(IPRP, ipco_box(item) + ipma_box(item))
}

/// The `meta` box: one still item, its data at `offset`.
#[verifier::opaque]
pub open spec fn meta_box(item: ItemView, offset: u32) -> Seq<u8> {
    framing::full_box(
        META,
        0,
        0,
        hdlr_box(PICT, ""@) + pitm_box() + iloc_box(offset, item.len) + iinf_box(
            item.codec.sample_entry(),
        ) + iprp_box(item),
    )
}

/// What the still item is described by, gathered.
pub open spec fn item_view(
    width: u32,
    height: u32,
    codec: CodecConfig<'_>,
    len: u32,
    colr: Option<&ColrBox>,
    clli: Option<&ClliBox>,
    mdcv: Option<&MdcvBox>,
    clap: Option<&ClapBox>,
) -> ItemView {
    ItemView {
        width,
        height,
        codec: codec@,
        len,
        colr: value_of(colr),
        clli: value_of(clli),
        mdcv: value_of(mdcv),
        clap: value_of(clap),
    }
}

// ─── Writers ─────────────────────────────────────────────────────────

/// Append the `ftyp` box.
pub fn write_ftyp(out: &mut Vec<u8>, codec: CodecConfig<'_>)
    ensures
        final(out)@ == old(out)@ + ftyp_box(codec@),
{
    reveal(ftyp_box);
    broadcast use framing::group_framing;

    let pos: usize = begin_box(out, FTYP);
    match codec {
        CodecConfig::Av1 { .. } => {
            write_u32(out, AVIS);  // major brand
            write_u32(out, 0);  // minor version
            write_u32(out, AVIS);  // compatible brands
            write_u32(out, AVIF);
            write_u32(out, MIF1);
            write_u32(out, MIAF);
            write_u32(out, ISO8);
        },
        CodecConfig::Hevc { .. } => {
            // `hevc` leads because the file is HEVC-coded throughout; `msf1`
            // says there is an image sequence and `heic` that the still item
            // inside it is readable on its own.
            write_u32(out, HEVC);  // major brand
            write_u32(out, 0);  // minor version
            write_u32(out, MIF1);  // compatible brands
            write_u32(out, HEIC);
            write_u32(out, MIAF);
            write_u32(out, MSF1);
            write_u32(out, ISO8);
            write_u32(out, HEVC);
        },
    }
    end_box(out, pos);
}

/// Append an `hdlr` box.
pub fn write_hdlr(out: &mut Vec<u8>, handler: u32, name: &str)
    ensures
        final(out)@ == old(out)@ + hdlr_box(handler, name@),
{
    reveal(hdlr_box);
    broadcast use framing::group_framing;

    let pos: usize = begin_box(out, HDLR);
    write_fullbox(out, 0, 0);
    write_u32(out, 0);  // pre_defined
    write_u32(out, handler);
    write_zeros(out, 12);  // reserved
    write_bytes(out, name.as_bytes());
    write_bytes(out, &[0]);
    assert([0u8]@ =~= seq![0u8]);
    end_box(out, pos);
}

fn write_pitm(out: &mut Vec<u8>)
    ensures
        final(out)@ == old(out)@ + pitm_box(),
{
    reveal(pitm_box);
    broadcast use framing::group_framing;

    let pos: usize = begin_box(out, PITM);
    write_fullbox(out, 0, 0);
    write_u16(out, 1);  // item_id
    end_box(out, pos);
}

/// Append the `iloc` box with a placeholder for the offset, and return the
/// position of the offset.
fn write_iloc(out: &mut Vec<u8>, len: u32) -> (pos: usize)
    ensures
        final(out)@ == old(out)@ + iloc_box(ILOC_PLACEHOLDER, len),
        old(out)@.len() + 8 <= pos,
        pos + 4 <= final(out)@.len(),
        forall|offset: u32| #[trigger]
            bytes::patched(iloc_box(ILOC_PLACEHOLDER, len), pos - old(out)@.len(), offset)
                == iloc_box(offset, len),
{
    reveal(iloc_box);
    broadcast use framing::group_framing;

    let pos: usize = begin_box(out, ILOC);
    let ghost start = out@;
    write_fullbox(out, 0, 0);
    write_bytes(out, &[0x44, 0x00]);  // four-byte offsets and lengths, no base offset
    assert([0x44u8, 0x00u8]@ =~= seq![0x44u8, 0x00u8]);
    write_u16(out, 1);  // item_count
    write_u16(out, 1);  // item_id
    write_u16(out, 0);  // data_reference_index
    write_u16(out, 1);  // extent_count
    let offset_pos: usize = out.len();
    write_u32(out, ILOC_PLACEHOLDER);  // extent_offset, filled in later
    write_u32(out, len);  // extent_length
    end_box(out, pos);
    proof {
        let head = framing::version_flags(0, 0) + (seq![0x44u8, 0x00u8] + bytes::be16(1)
            + bytes::be16(1) + bytes::be16(0) + bytes::be16(1));
        assert forall|offset: u32| #[trigger]
            bytes::patched(
                iloc_box(ILOC_PLACEHOLDER, len),
                offset_pos - old(out)@.len(),
                offset,
            ) == iloc_box(offset, len) by {
            let payload = head + (bytes::be32(ILOC_PLACEHOLDER) + bytes::be32(len));
            framing::lemma_patched_box(ILOC, payload, offset_pos - old(out)@.len(), offset);
            bytes::lemma_patched_field(head, ILOC_PLACEHOLDER, bytes::be32(len), offset);
        }
    }
    offset_pos
}

fn write_iinf(out: &mut Vec<u8>, kind: u32)
    ensures
        final(out)@ == old(out)@ + iinf_box(kind),
{
    reveal(iinf_box);
    broadcast use framing::group_framing;

    let iinf_pos: usize = begin_box(out, IINF);
    write_fullbox(out, 0, 0);
    write_u16(out, 1);  // entry_count
    let infe_pos: usize = begin_box(out, INFE);
    write_fullbox(out, 2, 0);
    write_u16(out, 1);  // item_id
    write_u16(out, 0);  // protection_index
    write_u32(out, kind);
    write_bytes(out, &[0]);  // name
    assert([0u8]@ =~= seq![0u8]);
    end_box(out, infe_pos);
    end_box(out, iinf_pos);
}

fn write_ispe(out: &mut Vec<u8>, width: u32, height: u32)
    ensures
        final(out)@ == old(out)@ + ispe_box(width, height),
{
    reveal(ispe_box);
    broadcast use framing::group_framing;

    let pos: usize = begin_box(out, ISPE);
    write_fullbox(out, 0, 0);
    write_u32(out, width);
    write_u32(out, height);
    end_box(out, pos);
}

fn write_pixi(out: &mut Vec<u8>, channels: u8, depth: u8)
    ensures
        final(out)@ == old(out)@ + pixi_box(channels, depth),
{
    reveal(pixi_box);
    broadcast use framing::group_framing;

    let pos: usize = begin_box(out, PIXI);
    write_fullbox(out, 0, 0);
    write_bytes(out, &[channels]);
    assert([channels]@ =~= seq![channels]);
    let ghost head = out@;
    for i in 0..channels
        invariant
            out@ == head + Seq::new(i as nat, |j: int| depth),
    {
        out.push(depth);
    }
    end_box(out, pos);
}

/// Whether color information is written.
pub(crate) fn has_colr(colr: Option<&ColrBox>) -> (b: bool)
    ensures
        b == states_colr(value_of(colr)),
{
    match colr {
        Some(c) => *c != ColrBox::default(),
        None => false,
    }
}

fn write_ipco(out: &mut Vec<u8>, item: Item<'_>)
    ensures
        final(out)@ == old(out)@ + ipco_box(item@),
{
    reveal(ipco_box);
    broadcast use framing::group_framing;

    let pos: usize = begin_box(out, IPCO);

    // Property 1: the coded size.
    write_ispe(out, item.width, item.height);

    // Property 2: the decoder configuration, av1C or hvcC.
    item.codec.write_box(out);

    // Property 3: the pixel layout.
    let (channels, depth): (u8, u8) = item.codec.pixel_description();
    write_pixi(out, channels, depth);

    // What follows is optional.
    if let Some(colr) = item.colr {
        if has_colr(item.colr) {
            write_colr_nclx(out, colr);
        }
    }
    if let Some(clli) = item.clli {
        write_clli(out, clli);
    }
    if let Some(mdcv) = item.mdcv {
        write_mdcv(out, mdcv);
    }
    // The still item is coded at the padded size like every frame, so it
    // needs the same crop.
    if let Some(clap) = item.clap {
        clap.write(out);
    }
    end_box(out, pos);
}

/// Append the number of associations, and the associations.
fn write_associations(out: &mut Vec<u8>, item: Item<'_>)
    ensures
        final(out)@ == old(out)@ + (seq![associations(item@).len() as u8] + associations(item@)),
{
    let has_colr: bool = has_colr(item.colr);
    let mut assoc_count: u8 = 3;
    if has_colr {
        assoc_count += 1;
    }
    if item.clli.is_some() {
        assoc_count += 1;
    }
    if item.mdcv.is_some() {
        assoc_count += 1;
    }
    if item.clap.is_some() {
        assoc_count += 1;
    }
    out.push(assoc_count);
    out.push(0x01);  // property 1 (ispe), not essential
    out.push(0x82);  // property 2 (av1C or hvcC), essential
    out.push(0x03);  // property 3 (pixi), not essential
    let mut next_prop: u8 = 4;
    if has_colr {
        out.push(next_prop);
        next_prop += 1;
    }
    if item.clli.is_some() {
        out.push(next_prop);
        next_prop += 1;
    }
    if item.mdcv.is_some() {
        out.push(next_prop);
        next_prop += 1;
    }
    if item.clap.is_some() {
        // Essential: a reader that ignores it shows the padding.
        out.push(0x80 + next_prop);
    }
    assert(assoc_count == associations(item@).len());
}

fn write_ipma(out: &mut Vec<u8>, item: Item<'_>)
    ensures
        final(out)@ == old(out)@ + ipma_box(item@),
{
    reveal(ipma_box);
    broadcast use framing::group_framing;

    let pos: usize = begin_box(out, IPMA);
    write_fullbox(out, 0, 0);
    write_u32(out, 1);  // entry_count
    write_u16(out, 1);  // item_id
    write_associations(out, item);
    end_box(out, pos);
}

fn write_iprp(out: &mut Vec<u8>, item: Item<'_>)
    ensures
        final(out)@ == old(out)@ + iprp_box(item@),
{
    reveal(iprp_box);
    broadcast use framing::group_framing;

    let pos: usize = begin_box(out, IPRP);
    write_ipco(out, item);
    write_ipma(out, item);
    end_box(out, pos);
}

/// Append the `meta` box with a placeholder for the item's offset, and return
/// the position of the offset.
pub fn write_meta(
    out: &mut Vec<u8>,
    width: u32,
    height: u32,
    codec: CodecConfig<'_>,
    first_frame_len: u32,
    colr: Option<&ColrBox>,
    clli: Option<&ClliBox>,
    mdcv: Option<&MdcvBox>,
    clap: Option<&ClapBox>,
) -> (pos: usize)
    ensures
        final(out)@ == old(out)@ + meta_box(
            item_view(width, height, codec, first_frame_len, colr, clli, mdcv, clap),
            ILOC_PLACEHOLDER,
        ),
        old(out)@.len() <= pos,
        pos + 4 <= final(out)@.len(),
        forall|offset: u32| #[trigger]
            bytes::patched(
                meta_box(
                    item_view(width, height, codec, first_frame_len, colr, clli, mdcv, clap),
                    ILOC_PLACEHOLDER,
                ),
                pos - old(out)@.len(),
                offset,
            ) == meta_box(
                item_view(width, height, codec, first_frame_len, colr, clli, mdcv, clap),
                offset,
            ),
{
    reveal(meta_box);
    broadcast use framing::group_framing;

    let item = Item { width, height, codec, len: first_frame_len, colr, clli, mdcv, clap };
    let ghost before = out@;
    let meta_pos: usize = begin_box(out, META);
    write_fullbox(out, 0, 0);
    write_hdlr(out, PICT, "");
    write_pitm(out);
    let ghost iloc_start = out@.len();
    let pos: usize = write_iloc(out, first_frame_len);
    write_iinf(out, codec.entry_type());
    write_iprp(out, item);
    end_box(out, meta_pos);
    proof {
        let head = framing::version_flags(0, 0) + (hdlr_box(PICT, ""@) + pitm_box());
        let tail = iinf_box(item@.codec.sample_entry()) + iprp_box(item@);
        let at = pos - before.len();
        assert forall|offset: u32| #[trigger]
            bytes::patched(meta_box(item@, ILOC_PLACEHOLDER), at, offset) == meta_box(
            item@,
            offset,
        ) by {
            let iloc = iloc_box(ILOC_PLACEHOLDER, first_frame_len);
            framing::lemma_patched_box(META, head + (iloc + tail), at, offset);
            bytes::lemma_patched_second(head, iloc + tail, at - 8, offset);
            bytes::lemma_patched_first(iloc, tail, pos - iloc_start, offset);
        }
    }
    pos
}

} // verus!
