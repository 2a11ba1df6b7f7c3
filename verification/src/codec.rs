//! How one track's samples are configured, and everything that follows from it.
use vstd::prelude::*;

use crate::boxes;
use crate::boxes::{bit_depth_from_av1c, write_av1c_box, Av1CBox};
use crate::fourcc::{AV01, HVC1};
use crate::hvcc;
use crate::hvcc::{HvcCBox, HvcCBoxView};

verus! {

/// How one track's samples are configured, and everything that follows from
/// it: the sample entry's type, the item type a still frame gets, and the
/// pixel description the `pixi` property carries.
///
/// The two codecs differ in where the decoder's startup state lives. AV1 keeps
/// the sequence header in the bitstream and `av1C` merely repeats it, so the
/// caller supplies it alongside the configuration. HEVC keeps its parameter
/// sets only in `hvcC`, so there is nothing beside it to pass.
#[allow(inconsistent_fields)]
#[derive(Clone, Copy)]
pub enum CodecConfig<'a> {
    Av1 { config: &'a Av1CBox, seq_header: &'a [u8] },
    Hevc { config: &'a HvcCBox },
}

/// What a [`CodecConfig`] holds.
#[allow(inconsistent_fields)]
pub enum CodecView {
    Av1 { config: Av1CBox, seq_header: Seq<u8> },
    Hevc { config: HvcCBoxView },
}

impl<'a> View for CodecConfig<'a> {
    type V = CodecView;

    open spec fn view(&self) -> CodecView {
        match *self {
            CodecConfig::Av1 { config, seq_header } => CodecView::Av1 {
                config: *config,
                seq_header: seq_header@,
            },
            CodecConfig::Hevc { config } => CodecView::Hevc { config: config@ },
        }
    }
}

impl CodecView {
    /// The URN naming an alpha auxiliary track for this codec.
    pub open spec fn alpha_urn(self) -> Seq<char> {
        match self {
            CodecView::Av1 { .. } => "urn:mpeg:mpegB:cicp:systems:auxiliary:alpha"@,
            CodecView::Hevc { .. } => "urn:mpeg:hevc:2015:auxid:1"@,
        }
    }

    /// The sample entry type, which is also the still item's type.
    pub open spec fn sample_entry(self) -> u32 {
        match self {
            CodecView::Av1 { .. } => AV01,
            CodecView::Hevc { .. } => HVC1,
        }
    }

    /// How many channels a picture has: three unless it is monochrome.
    pub open spec fn channels(self) -> u8 {
        match self {
            CodecView::Av1 { config, .. } => if config.monochrome {
                1
            } else {
                3
            },
            CodecView::Hevc { config } => if config.chroma_format_idc == 0 {
                1
            } else {
                3
            },
        }
    }

    /// Bits per channel.
    pub open spec fn depth(self) -> u8 {
        match self {
            CodecView::Av1 { config, .. } => boxes::av1c_bit_depth(config),
            CodecView::Hevc { config } => config.bit_depth_luma,
        }
    }

    /// The decoder configuration box: `av1C` or `hvcC`.
    pub open spec fn config_box(self) -> Seq<u8> {
        match self {
            CodecView::Av1 { config, seq_header } => boxes::av1c_box(config, seq_header),
            CodecView::Hevc { config } => hvcc::hvcc_box(config),
        }
    }
}

impl<'a> CodecConfig<'a> {
    /// The URN naming an alpha auxiliary track for this codec.
    ///
    /// A reader identifies an alpha track by this string, not by the `auxv`
    /// handler alone: a track without one is reported as a second picture
    /// track rather than as transparency. HEVC has its own; AV1 uses MIAF's.
    pub fn alpha_aux_urn(&self) -> (urn: &'static str)
        ensures
            urn@ == self@.alpha_urn(),
    {
        match self {
            CodecConfig::Av1 { .. } => "urn:mpeg:mpegB:cicp:systems:auxiliary:alpha",
            CodecConfig::Hevc { .. } => "urn:mpeg:hevc:2015:auxid:1",
        }
    }

    /// The sample entry type, which is also the still item's type.
    pub fn entry_type(&self) -> (kind: u32)
        ensures
            kind == self@.sample_entry(),
    {
        match self {
            CodecConfig::Av1 { .. } => AV01,
            CodecConfig::Hevc { .. } => HVC1,
        }
    }

    /// How many channels there are, and the bits of each.
    pub fn pixel_description(&self) -> (description: (u8, u8))
        ensures
            description == (self@.channels(), self@.depth()),
    {
        match self {
            CodecConfig::Av1 { config, .. } => {
                let depth: u8 = bit_depth_from_av1c(config);
                (if config.monochrome { 1 } else { 3 }, depth)
            },
            CodecConfig::Hevc { config } => {
                // Of the chroma formats only monochrome has no chroma planes.
                let channels: u8 = if config.chroma_format_idc == 0 {
                    1
                } else {
                    3
                };
                (channels, config.bit_depth_luma)
            },
        }
    }

    /// Append the decoder configuration, as a property or as a sub-box.
    pub fn write_box(&self, out: &mut Vec<u8>)
        ensures
            final(out)@ == old(out)@ + self@.config_box(),
    {
        match self {
            CodecConfig::Av1 { config, seq_header } => write_av1c_box(out, config, seq_header),
            CodecConfig::Hevc { config } => config.write(out),
        }
    }
}

} // verus!
