//! Four-character codes: the types of boxes, brands, handlers and sample entries.
//!
//! Each is the big-endian value of its four ASCII characters.
use vstd::prelude::*;

verus! {

// Top-level boxes.

/// `ftyp`
pub const FTYP: u32 = 0x6674_7970;

/// `meta`
pub const META: u32 = 0x6d65_7461;

/// `moov`
pub const MOOV: u32 = 0x6d6f_6f76;

/// `mdat`
pub const MDAT: u32 = 0x6d64_6174;

// Brands.

/// `avis`
pub const AVIS: u32 = 0x6176_6973;

/// `avif`
pub const AVIF: u32 = 0x6176_6966;

/// `mif1`
pub const MIF1: u32 = 0x6d69_6631;

/// `miaf`
pub const MIAF: u32 = 0x6d69_6166;

/// `iso8`
pub const ISO8: u32 = 0x6973_6f38;

/// `hevc`
pub const HEVC: u32 = 0x6865_7663;

/// `heic`
pub const HEIC: u32 = 0x6865_6963;

/// `msf1`
pub const MSF1: u32 = 0x6d73_6631;

// Item description.

/// `hdlr`
pub const HDLR: u32 = 0x6864_6c72;

/// `pitm`
pub const PITM: u32 = 0x7069_746d;

/// `iloc`
pub const ILOC: u32 = 0x696c_6f63;

/// `iinf`
pub const IINF: u32 = 0x6969_6e66;

/// `infe`
pub const INFE: u32 = 0x696e_6665;

/// `iprp`
pub const IPRP: u32 = 0x6970_7270;

/// `ipco`
pub const IPCO: u32 = 0x6970_636f;

/// `ipma`
pub const IPMA: u32 = 0x6970_6d61;

// Item properties.

/// `ispe`
pub const ISPE: u32 = 0x6973_7065;

/// `av1C`
pub const AV1C: u32 = 0x6176_3143;

/// `hvcC`
pub const HVCC: u32 = 0x6876_6343;

/// `pixi`
pub const PIXI: u32 = 0x7069_7869;

/// `colr`
pub const COLR: u32 = 0x636f_6c72;

/// `clli`
pub const CLLI: u32 = 0x636c_6c69;

/// `mdcv`
pub const MDCV: u32 = 0x6d64_6376;

/// `clap`
pub const CLAP: u32 = 0x636c_6170;

/// `nclx`
pub const NCLX: u32 = 0x6e63_6c78;

// Handlers and sample entries.

/// `pict`
pub const PICT: u32 = 0x7069_6374;

/// `auxv`
pub const AUXV: u32 = 0x6175_7876;

/// `av01`
pub const AV01: u32 = 0x6176_3031;

/// `hvc1`
pub const HVC1: u32 = 0x6876_6331;

// Tracks.

/// `mvhd`
pub const MVHD: u32 = 0x6d76_6864;

/// `trak`
pub const TRAK: u32 = 0x7472_616b;

/// `tkhd`
pub const TKHD: u32 = 0x746b_6864;

/// `edts`
pub const EDTS: u32 = 0x6564_7473;

/// `elst`
pub const ELST: u32 = 0x656c_7374;

/// `mdia`
pub const MDIA: u32 = 0x6d64_6961;

/// `mdhd`
pub const MDHD: u32 = 0x6d64_6864;

/// `minf`
pub const MINF: u32 = 0x6d69_6e66;

/// `vmhd`
pub const VMHD: u32 = 0x766d_6864;

/// `dinf`
pub const DINF: u32 = 0x6469_6e66;

/// `dref`
pub const DREF: u32 = 0x6472_6566;

/// `url`, padded with a space
pub const URL: u32 = 0x7572_6c20;

/// `tref`
pub const TREF: u32 = 0x7472_6566;

/// `auxl`
pub const AUXL: u32 = 0x6175_786c;

// Sample tables.

/// `stbl`
pub const STBL: u32 = 0x7374_626c;

/// `stsd`
pub const STSD: u32 = 0x7374_7364;

/// `auxi`
pub const AUXI: u32 = 0x6175_7869;

/// `ccst`
pub const CCST: u32 = 0x6363_7374;

/// `stts`
pub const STTS: u32 = 0x7374_7473;

/// `stsc`
pub const STSC: u32 = 0x7374_7363;

/// `stsz`
pub const STSZ: u32 = 0x7374_737a;

/// `stco`
pub const STCO: u32 = 0x7374_636f;

/// `stss`
pub const STSS: u32 = 0x7374_7373;

} // verus!
