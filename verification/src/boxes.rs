//! The configuration and metadata boxes a caller describes a sequence with.
use vstd::prelude::*;

use crate::bytes;
use crate::bytes::{write_bytes, write_u16, write_u32};
use crate::fourcc::{AV1C, CLAP, CLLI, COLR, MDCV, NCLX};
use crate::framing;
use crate::framing::{begin_box, end_box};

verus! {

// ─── AV1 configuration ───────────────────────────────────────────────

/// AV1 codec configuration, the `av1C` box.
#[derive(Clone, Copy, Debug, PartialEq, Eq)]
pub struct Av1CBox {
    pub seq_profile: u8,
    pub seq_level_idx_0: u8,
    pub seq_tier_0: bool,
    pub high_bitdepth: bool,
    pub twelve_bit: bool,
    pub monochrome: bool,
    pub chroma_subsampling_x: bool,
    pub chroma_subsampling_y: bool,
    pub chroma_sample_position: u8,
}

impl Default for Av1CBox {
    /// Main profile at level 3.0, 8-bit 4:2:0.
    fn default() -> (config: Self)
        ensures
            config == default_av1c(),
    {
        Av1CBox {
            seq_profile: 0,
            seq_level_idx_0: 4,
            seq_tier_0: false,
            high_bitdepth: false,
            twelve_bit: false,
            monochrome: false,
            chroma_subsampling_x: true,
            chroma_subsampling_y: true,
            chroma_sample_position: 0,
        }
    }
}

/// Main profile at level 3.0, 8-bit 4:2:0.
pub open spec fn default_av1c() -> Av1CBox {
    Av1CBox {
        seq_profile: 0,
        seq_level_idx_0: 4,
        seq_tier_0: false,
        high_bitdepth: false,
        twelve_bit: false,
        monochrome: false,
        chroma_subsampling_x: true,
        chroma_subsampling_y: true,
        chroma_sample_position: 0,
    }
}

/// The profile in the high three bits and the level in the low five.
pub open spec fn av1c_profile_level(config: Av1CBox) -> u8 {
    (config.seq_profile << 5) | config.seq_level_idx_0
}

/// Six flags from the high bit down, and the chroma sample position in the low two.
pub open spec fn av1c_flags(config: Av1CBox) -> u8 {
    (if config.seq_tier_0 { 0x80u8 } else { 0 })
        | (if config.high_bitdepth { 0x40u8 } else { 0 })
        | (if config.twelve_bit { 0x20u8 } else { 0 })
        | (if config.monochrome { 0x10u8 } else { 0 })
        | (if config.chroma_subsampling_x { 0x08u8 } else { 0 })
        | (if config.chroma_subsampling_y { 0x04u8 } else { 0 })
        | config.chroma_sample_position
}

/// The `av1C` box: marker and version, the configuration, no presentation
/// delay, and the sequence header.
#[verifier::opaque]
pub open spec fn av1c_box(config: Av1CBox, seq_header: Seq<u8>) -> Seq<u8> {
    framing::mp4_box(
        AV1C,
        seq![0x81u8, av1c_profile_level(config), av1c_flags(config), 0x00u8] + seq_header,
    )
}

/// The bit depth that the two flags select.
pub open spec fn av1c_bit_depth(config: Av1CBox) -> u8 {
    if config.twelve_bit {
        12
    } else if config.high_bitdepth {
        10
    } else {
        8
    }
}

/// The bits of each channel: 8, 10 or 12.
pub fn bit_depth_from_av1c(av1c: &Av1CBox) -> (depth: u8)
    ensures
        depth == av1c_bit_depth(*av1c),
{
    if av1c.twelve_bit {
        12
    } else if av1c.high_bitdepth {
        10
    } else {
        8
    }
}

/// Append an `av1C` box.
pub fn write_av1c_box(out: &mut Vec<u8>, av1c: &Av1CBox, seq_header: &[u8])
    ensures
        final(out)@ == old(out)@ + av1c_box(*av1c, seq_header@),
{
    reveal(av1c_box);
    broadcast use framing::group_framing;

    let pos: usize = begin_box(out, AV1C);
    let byte1: u8 = (av1c.seq_profile << 5) | av1c.seq_level_idx_0;
    let byte2: u8 = (if av1c.seq_tier_0 { 0x80u8 } else { 0 })
        | (if av1c.high_bitdepth { 0x40u8 } else { 0 })
        | (if av1c.twelve_bit { 0x20u8 } else { 0 })
        | (if av1c.monochrome { 0x10u8 } else { 0 })
        | (if av1c.chroma_subsampling_x { 0x08u8 } else { 0 })
        | (if av1c.chroma_subsampling_y { 0x04u8 } else { 0 })
        | av1c.chroma_sample_position;
    write_bytes(out, &[0x81, byte1, byte2, 0x00]);
    write_bytes(out, seq_header);
    assert([0x81u8, byte1, byte2, 0x00]@ =~= seq![
        0x81u8,
        av1c_profile_level(*av1c),
        av1c_flags(*av1c),
        0x00u8,
    ]);
    end_box(out, pos);
}

// ─── Color and light ────────────────────────────────────────────────

/// CICP color information. The three codes are CICP code points.
#[derive(Clone, Copy, Debug, PartialEq, Eq, Structural)]
pub struct ColrBox {
    pub color_primaries: u16,
    pub transfer_characteristics: u16,
    pub matrix_coefficients: u16,
    pub full_range_flag: bool,
}

/// BT.709 primaries, the sRGB transfer function, BT.601 coefficients, full
/// range: what a reader takes an image without color information to be.
pub open spec fn default_colr() -> ColrBox {
    ColrBox {
        color_primaries: 1,
        transfer_characteristics: 13,
        matrix_coefficients: 6,
        full_range_flag: true,
    }
}

impl Default for ColrBox {
    /// BT.709 primaries, the sRGB transfer function, BT.601 coefficients, full range.
    fn default() -> (colr: Self)
        ensures
            colr == default_colr(),
    {
        ColrBox {
            color_primaries: 1,
            transfer_characteristics: 13,
            matrix_coefficients: 6,
            full_range_flag: true,
        }
    }
}

/// The `colr` box with on-screen color codes.
#[verifier::opaque]
pub open spec fn colr_box(colr: ColrBox) -> Seq<u8> {
    framing::mp4_box(
        COLR,
        bytes::be32(NCLX) + bytes::be16(colr.color_primaries) + bytes::be16(
            colr.transfer_characteristics,
        ) + bytes::be16(colr.matrix_coefficients) + seq![
            if colr.full_range_flag { 0x80u8 } else { 0 },
        ],
    )
}

/// Append a `colr` box with on-screen color codes.
pub fn write_colr_nclx(out: &mut Vec<u8>, colr: &ColrBox)
    ensures
        final(out)@ == old(out)@ + colr_box(*colr),
{
    reveal(colr_box);
    broadcast use framing::group_framing;

    let pos: usize = begin_box(out, COLR);
    write_u32(out, NCLX);
    write_u16(out, colr.color_primaries);
    write_u16(out, colr.transfer_characteristics);
    write_u16(out, colr.matrix_coefficients);
    let range: u8 = if colr.full_range_flag { 0x80 } else { 0 };
    write_bytes(out, &[range]);
    assert([range]@ =~= seq![range]);
    end_box(out, pos);
}

/// Content light level information.
#[derive(Clone, Copy, Debug, PartialEq, Eq)]
pub struct ClliBox {
    pub max_content_light_level: u16,
    pub max_pic_average_light_level: u16,
}

/// The `clli` box.
#[verifier::opaque]
pub open spec fn clli_box(clli: ClliBox) -> Seq<u8> {
    framing::mp4_box(
        CLLI,
        bytes::be16(clli.max_content_light_level) + bytes::be16(clli.max_pic_average_light_level),
    )
}

/// Append a `clli` box.
pub fn write_clli(out: &mut Vec<u8>, clli: &ClliBox)
    ensures
        final(out)@ == old(out)@ + clli_box(*clli),
{
    reveal(clli_box);
    broadcast use framing::group_framing;

    let pos: usize = begin_box(out, CLLI);
    write_u16(out, clli.max_content_light_level);
    write_u16(out, clli.max_pic_average_light_level);
    end_box(out, pos);
}

/// Mastering display color volume.
#[derive(Clone, Copy, Debug, PartialEq, Eq)]
pub struct MdcvBox {
    /// The display primaries as (x, y).
    pub primaries: [(u16, u16); 3],
    /// The white point as (x, y).
    pub white_point: (u16, u16),
    pub max_luminance: u32,
    pub min_luminance: u32,
}

/// A chromaticity: x, then y.
pub open spec fn chromaticity(point: (u16, u16)) -> Seq<u8> {
    bytes::be16(point.0) + bytes::be16(point.1)
}

/// The `mdcv` box.
#[verifier::opaque]
pub open spec fn mdcv_box(mdcv: MdcvBox) -> Seq<u8> {
    framing::mp4_box(
        MDCV,
        chromaticity(mdcv.primaries[0]) + chromaticity(mdcv.primaries[1]) + chromaticity(
            mdcv.primaries[2],
        ) + chromaticity(mdcv.white_point) + bytes::be32(mdcv.max_luminance) + bytes::be32(
            mdcv.min_luminance,
        ),
    )
}

fn write_chromaticity(out: &mut Vec<u8>, point: (u16, u16))
    ensures
        final(out)@ == old(out)@ + chromaticity(point),
{
    broadcast use bytes::group_append;

    write_u16(out, point.0);
    write_u16(out, point.1);
}

/// Append an `mdcv` box.
pub fn write_mdcv(out: &mut Vec<u8>, mdcv: &MdcvBox)
    ensures
        final(out)@ == old(out)@ + mdcv_box(*mdcv),
{
    reveal(mdcv_box);
    broadcast use framing::group_framing;

    let pos: usize = begin_box(out, MDCV);
    write_chromaticity(out, mdcv.primaries[0]);
    write_chromaticity(out, mdcv.primaries[1]);
    write_chromaticity(out, mdcv.primaries[2]);
    write_chromaticity(out, mdcv.white_point);
    write_u32(out, mdcv.max_luminance);
    write_u32(out, mdcv.min_luminance);
    end_box(out, pos);
}

// ─── Clean aperture ──────────────────────────────────────────────────

/// The region of a coded frame that is the picture. The sizes and the offsets
/// of the centre are rationals.
#[derive(Clone, Copy, Debug, PartialEq, Eq)]
pub struct ClapBox {
    pub width_n: u32,
    pub width_d: u32,
    pub height_n: u32,
    pub height_d: u32,
    pub horiz_off_n: i32,
    pub horiz_off_d: u32,
    pub vert_off_n: i32,
    pub vert_off_d: u32,
}

/// The two's complement of `v` as an unsigned number.
pub open spec fn twos_complement(v: i32) -> u32 {
    if v < 0 {
        (v + 0x1_0000_0000) as u32
    } else {
        v as u32
    }
}

/// The `clap` box.
#[verifier::opaque]
pub open spec fn clap_box(clap: ClapBox) -> Seq<u8> {
    framing::mp4_box(
        CLAP,
        bytes::be32(clap.width_n) + bytes::be32(clap.width_d) + bytes::be32(clap.height_n)
            + bytes::be32(clap.height_d) + bytes::be32(twos_complement(clap.horiz_off_n))
            + bytes::be32(clap.horiz_off_d) + bytes::be32(twos_complement(clap.vert_off_n))
            + bytes::be32(clap.vert_off_d),
    )
}

fn write_i32(out: &mut Vec<u8>, v: i32)
    ensures
        final(out)@ == old(out)@ + bytes::be32(twos_complement(v)),
{
    let unsigned: u32 = if v < 0 {
        (v as i64 + 0x1_0000_0000) as u32
    } else {
        v as u32
    };
    write_u32(out, unsigned);
}

impl ClapBox {
    /// Append a `clap` box.
    pub fn write(&self, out: &mut Vec<u8>)
        ensures
            final(out)@ == old(out)@ + clap_box(*self),
    {
        reveal(clap_box);
        broadcast use framing::group_framing;

        let pos: usize = begin_box(out, CLAP);
        write_u32(out, self.width_n);
        write_u32(out, self.width_d);
        write_u32(out, self.height_n);
        write_u32(out, self.height_d);
        write_i32(out, self.horiz_off_n);
        write_u32(out, self.horiz_off_d);
        write_i32(out, self.vert_off_n);
        write_u32(out, self.vert_off_d);
        end_box(out, pos);
    }
}

} // verus!
