//! Single boxes and fields, byte for byte.
use heif_serialize::boxes::{
    bit_depth_from_av1c, write_av1c_box, write_clli, write_colr_nclx, write_mdcv,
};
use heif_serialize::bytes::{
    truncate_u16, truncate_u32, write_bytes, write_u16, write_u32, write_u32_at, write_u32_table,
    write_u64, write_zeros,
};
use heif_serialize::codec::CodecConfig;
use heif_serialize::fourcc;
use heif_serialize::framing::{begin_box, end_box, write_fullbox};
use heif_serialize::meta::{write_ftyp, write_hdlr, write_meta, ILOC_PLACEHOLDER};
use heif_serialize::presentation::{display_size, Presentation, INDEFINITE_DURATION};
use heif_serialize::sample_table::{
    write_stco, write_stsc, write_stss, write_stsz, write_stts, STCO_PLACEHOLDER,
};
use heif_serialize::track::{write_mvhd, write_track};
use heif_serialize::{Av1CBox, ClapBox, ClliBox, ColrBox, HvcCBox, HvcCParameterSet, MdcvBox};

fn clap(width: (u32, u32), height: (u32, u32)) -> ClapBox {
    ClapBox {
        width_n: width.0,
        width_d: width.1,
        height_n: height.0,
        height_d: height.1,
        horiz_off_n: 0,
        horiz_off_d: 1,
        vert_off_n: 0,
        vert_off_d: 1,
    }
}

fn set(nal_unit_type: u8, array_completeness: bool, data: &[u8]) -> HvcCParameterSet {
    HvcCParameterSet { nal_unit_type, array_completeness, data: data.to_vec() }
}

#[test]
fn four_character_codes_spell_their_names() {
    for (code, name) in [
        (fourcc::FTYP, b"ftyp"),
        (fourcc::META, b"meta"),
        (fourcc::MOOV, b"moov"),
        (fourcc::MDAT, b"mdat"),
        (fourcc::AVIS, b"avis"),
        (fourcc::AVIF, b"avif"),
        (fourcc::MIF1, b"mif1"),
        (fourcc::MIAF, b"miaf"),
        (fourcc::ISO8, b"iso8"),
        (fourcc::HEVC, b"hevc"),
        (fourcc::HEIC, b"heic"),
        (fourcc::MSF1, b"msf1"),
        (fourcc::HDLR, b"hdlr"),
        (fourcc::PITM, b"pitm"),
        (fourcc::ILOC, b"iloc"),
        (fourcc::IINF, b"iinf"),
        (fourcc::INFE, b"infe"),
        (fourcc::IPRP, b"iprp"),
        (fourcc::IPCO, b"ipco"),
        (fourcc::IPMA, b"ipma"),
        (fourcc::ISPE, b"ispe"),
        (fourcc::AV1C, b"av1C"),
        (fourcc::HVCC, b"hvcC"),
        (fourcc::PIXI, b"pixi"),
        (fourcc::COLR, b"colr"),
        (fourcc::CLLI, b"clli"),
        (fourcc::MDCV, b"mdcv"),
        (fourcc::CLAP, b"clap"),
        (fourcc::NCLX, b"nclx"),
        (fourcc::PICT, b"pict"),
        (fourcc::AUXV, b"auxv"),
        (fourcc::AV01, b"av01"),
        (fourcc::HVC1, b"hvc1"),
        (fourcc::MVHD, b"mvhd"),
        (fourcc::TRAK, b"trak"),
        (fourcc::TKHD, b"tkhd"),
        (fourcc::EDTS, b"edts"),
        (fourcc::ELST, b"elst"),
        (fourcc::MDIA, b"mdia"),
        (fourcc::MDHD, b"mdhd"),
        (fourcc::MINF, b"minf"),
        (fourcc::VMHD, b"vmhd"),
        (fourcc::DINF, b"dinf"),
        (fourcc::DREF, b"dref"),
        (fourcc::URL, b"url "),
        (fourcc::TREF, b"tref"),
        (fourcc::AUXL, b"auxl"),
        (fourcc::STBL, b"stbl"),
        (fourcc::STSD, b"stsd"),
        (fourcc::AUXI, b"auxi"),
        (fourcc::CCST, b"ccst"),
        (fourcc::STTS, b"stts"),
        (fourcc::STSC, b"stsc"),
        (fourcc::STSZ, b"stsz"),
        (fourcc::STCO, b"stco"),
        (fourcc::STSS, b"stss"),
    ] {
        assert_eq!(&code.to_be_bytes(), name);
    }
}

#[test]
fn integers_are_big_endian() {
    let mut out = vec![0xEE];
    write_u16(&mut out, 0x0102);
    write_u32(&mut out, 0x0304_0506);
    write_u64(&mut out, 0x0708_090A_0B0C_0D0E);
    write_bytes(&mut out, b"xy");
    write_zeros(&mut out, 3);
    write_u32_table(&mut out, &[1, 0xFFFF_FFFF]);
    assert_eq!(
        out,
        [
            0xEE, 1, 2, 3, 4, 5, 6, 7, 8, 9, 10, 11, 12, 13, 14, b'x', b'y', 0, 0, 0, 0, 0, 0, 1,
            0xFF, 0xFF, 0xFF, 0xFF,
        ]
    );
}

#[test]
fn fields_keep_the_low_bits() {
    assert_eq!(truncate_u32(0x1_2345_6789_ABCD), 0x6789_ABCD);
    assert_eq!(truncate_u32(7), 7);
    assert_eq!(truncate_u16(0x1_2345), 0x2345);
    assert_eq!(truncate_u16(65535), 65535);
}

#[test]
fn a_field_is_written_at_its_position_and_nowhere_else() {
    let mut out = vec![9; 8];
    write_u32_at(&mut out, 2, 0x0102_0304);
    assert_eq!(out, [9, 9, 1, 2, 3, 4, 9, 9]);
    write_u32_at(&mut out, 4, 0);
    assert_eq!(out, [9, 9, 1, 2, 0, 0, 0, 0]);
}

#[test]
fn boxes_state_their_size() {
    let mut out = vec![0xAB];
    let outer = begin_box(&mut out, fourcc::DINF);
    assert_eq!(outer, 1);
    let inner = begin_box(&mut out, fourcc::DREF);
    write_fullbox(&mut out, 2, 0x0003_0405);
    end_box(&mut out, inner);
    end_box(&mut out, outer);
    assert_eq!(out, b"\xAB\0\0\0\x14dinf\0\0\0\x0Cdref\x02\x03\x04\x05");
}

#[test]
fn file_types() {
    let av1 = Av1CBox::default();
    let mut out = Vec::new();
    write_ftyp(&mut out, CodecConfig::Av1 { config: &av1, seq_header: b"h" });
    assert_eq!(out, b"\0\0\0\x24ftypavis\0\0\0\0avisavifmif1miafiso8");

    let hevc = HvcCBox::default();
    let mut out = Vec::new();
    write_ftyp(&mut out, CodecConfig::Hevc { config: &hevc });
    assert_eq!(out, b"\0\0\0\x28ftyphevc\0\0\0\0mif1heicmiafmsf1iso8hevc");
}

#[test]
fn handlers_end_with_their_name() {
    let mut out = Vec::new();
    write_hdlr(&mut out, fourcc::AUXV, "Alpha");
    assert_eq!(out, b"\0\0\0\x26hdlr\0\0\0\0\0\0\0\0auxv\0\0\0\0\0\0\0\0\0\0\0\0Alpha\0");
}

#[test]
fn av1_configuration() {
    let mut out = Vec::new();
    write_av1c_box(&mut out, &Av1CBox::default(), b"seq");
    assert_eq!(out, b"\0\0\0\x0Fav1C\x81\x04\x0C\0seq");

    let config = Av1CBox {
        seq_profile: 2,
        seq_level_idx_0: 31,
        seq_tier_0: true,
        high_bitdepth: true,
        twelve_bit: true,
        monochrome: true,
        chroma_subsampling_x: false,
        chroma_subsampling_y: true,
        chroma_sample_position: 3,
    };
    let mut out = Vec::new();
    write_av1c_box(&mut out, &config, b"");
    assert_eq!(out, b"\0\0\0\x0Cav1C\x81\x5F\xF7\0");

    // Each flag has a bit of its own.
    let none = Av1CBox {
        chroma_subsampling_x: false,
        chroma_subsampling_y: false,
        ..Av1CBox::default()
    };
    for (config, bit) in [
        (Av1CBox { seq_tier_0: true, ..none }, 0x80),
        (Av1CBox { high_bitdepth: true, ..none }, 0x40),
        (Av1CBox { twelve_bit: true, ..none }, 0x20),
        (Av1CBox { monochrome: true, ..none }, 0x10),
        (Av1CBox { chroma_subsampling_x: true, ..none }, 0x08),
        (Av1CBox { chroma_subsampling_y: true, ..none }, 0x04),
        (Av1CBox { chroma_sample_position: 2, ..none }, 0x02),
        (none, 0),
    ] {
        let mut out = Vec::new();
        write_av1c_box(&mut out, &config, b"");
        assert_eq!(out[10], bit);
    }
}

#[test]
fn av1_bit_depths() {
    let eight = Av1CBox::default();
    let ten = Av1CBox { high_bitdepth: true, ..eight };
    assert_eq!(bit_depth_from_av1c(&eight), 8);
    assert_eq!(bit_depth_from_av1c(&ten), 10);
    assert_eq!(bit_depth_from_av1c(&Av1CBox { twelve_bit: true, ..ten }), 12);
    assert_eq!(bit_depth_from_av1c(&Av1CBox { twelve_bit: true, ..eight }), 12);
}

#[test]
fn color_information() {
    let mut out = Vec::new();
    let colr = ColrBox {
        color_primaries: 9,
        transfer_characteristics: 16,
        matrix_coefficients: 0x0109,
        full_range_flag: true,
    };
    write_colr_nclx(&mut out, &colr);
    assert_eq!(out, b"\0\0\0\x13colrnclx\0\x09\0\x10\x01\x09\x80");

    let mut out = Vec::new();
    write_colr_nclx(&mut out, &ColrBox { full_range_flag: false, ..colr });
    assert_eq!(out, b"\0\0\0\x13colrnclx\0\x09\0\x10\x01\x09\0");

    let default = ColrBox::default();
    assert_eq!(
        (default.color_primaries, default.transfer_characteristics, default.matrix_coefficients),
        (1, 13, 6)
    );
    assert!(default.full_range_flag);
}

#[test]
fn light_level_and_mastering_display() {
    let mut out = Vec::new();
    write_clli(&mut out, &ClliBox {
        max_content_light_level: 1000,
        max_pic_average_light_level: 0x0102,
    });
    assert_eq!(out, b"\0\0\0\x0Cclli\x03\xE8\x01\x02");

    let mut out = Vec::new();
    write_mdcv(&mut out, &MdcvBox {
        primaries: [(1, 2), (3, 4), (5, 6)],
        white_point: (7, 8),
        max_luminance: 0x0A0B_0C0D,
        min_luminance: 0x0E,
    });
    assert_eq!(
        out,
        b"\0\0\0\x20mdcv\0\x01\0\x02\0\x03\0\x04\0\x05\0\x06\0\x07\0\x08\x0A\x0B\x0C\x0D\0\0\0\x0E"
    );
}

#[test]
fn clean_aperture_offsets_keep_their_signs() {
    let mut out = Vec::new();
    let crop = ClapBox {
        horiz_off_n: -1,
        horiz_off_d: 2,
        vert_off_n: i32::MIN,
        vert_off_d: 3,
        ..clap((33, 1), (17, 4))
    };
    crop.write(&mut out);
    assert_eq!(&out[..8], b"\0\0\0\x28clap");
    assert_eq!(
        &out[8..],
        [
            0, 0, 0, 33, 0, 0, 0, 1, 0, 0, 0, 17, 0, 0, 0, 4, 0xFF, 0xFF, 0xFF, 0xFF, 0, 0, 0, 2,
            0x80, 0, 0, 0, 0, 0, 0, 3,
        ]
    );

    let mut out = Vec::new();
    ClapBox { horiz_off_n: 5, vert_off_n: i32::MAX, ..crop }.write(&mut out);
    assert_eq!(&out[24..28], [0, 0, 0, 5]);
    assert_eq!(&out[32..36], [0x7F, 0xFF, 0xFF, 0xFF]);
}

#[test]
fn hevc_configuration() {
    let mut out = Vec::new();
    HvcCBox::default().write(&mut out);
    assert_eq!(&out[..8], b"\0\0\0\x1FhvcC");
    assert_eq!(
        &out[8..],
        [
            1, 1, 0, 0, 0, 0, 0, 0, 0, 0, 0, 0, 60, 0xF0, 0, 0xFC, 0xFD, 0xF8, 0xF8, 0, 0, 0x0F, 0,
        ]
    );

    let config = HvcCBox {
        general_profile_space: 2,
        general_tier_flag: true,
        general_profile_idc: 31,
        general_profile_compatibility_flags: 0x0102_0304,
        general_constraint_indicator_flags: 0xFFFF_0506_0708_090A,
        general_level_idc: 93,
        min_spatial_segmentation_idc: 0x0ABC,
        parallelism_type: 3,
        chroma_format_idc: 2,
        bit_depth_luma: 10,
        bit_depth_chroma: 12,
        avg_frame_rate: 0x0D0E,
        constant_frame_rate: 1,
        num_temporal_layers: 5,
        temporal_id_nested: false,
        nal_length_size: 2,
        parameter_sets: vec![],
    };
    let mut out = Vec::new();
    config.write(&mut out);
    // The constraint flags above 48 bits are not written.
    assert_eq!(
        &out[8..],
        [
            1, 0xBF, 1, 2, 3, 4, 5, 6, 7, 8, 9, 10, 93, 0xFA, 0xBC, 0xFF, 0xFE, 0xFA, 0xFC, 0x0D,
            0x0E, 0x69, 0,
        ]
    );
}

#[test]
fn parameter_sets_of_one_type_share_an_array() {
    let config = HvcCBox {
        parameter_sets: vec![
            set(32, true, b"v"),
            set(33, true, b"s1"),
            set(33, true, b""),
            set(33, false, b"s3"),
            set(32, true, b"w"),
        ],
        ..HvcCBox::default()
    };
    let mut out = Vec::new();
    config.write(&mut out);
    assert_eq!(
        &out[8 + 22..],
        b"\x04\xA0\0\x01\0\x01v\xA1\0\x02\0\x02s1\0\0\x21\0\x01\0\x02s3\xA0\0\x01\0\x01w"
    );
    assert_eq!(out[..4], (out.len() as u32).to_be_bytes());
}

#[test]
fn codecs_differ_in_what_follows_from_them() {
    let color = Av1CBox::default();
    let gray = Av1CBox { monochrome: true, high_bitdepth: true, ..color };
    let av1 = CodecConfig::Av1 { config: &color, seq_header: b"q" };
    assert_eq!(av1.alpha_aux_urn(), "urn:mpeg:mpegB:cicp:systems:auxiliary:alpha");
    assert_eq!(av1.entry_type(), fourcc::AV01);
    assert_eq!(av1.pixel_description(), (3, 8));
    assert_eq!(CodecConfig::Av1 { config: &gray, seq_header: b"" }.pixel_description(), (1, 10));
    let mut out = Vec::new();
    av1.write_box(&mut out);
    assert_eq!(out, b"\0\0\0\x0Dav1C\x81\x04\x0C\0q");

    let color = HvcCBox { bit_depth_luma: 12, chroma_format_idc: 3, ..HvcCBox::default() };
    let gray = HvcCBox { chroma_format_idc: 0, ..HvcCBox::default() };
    let hevc = CodecConfig::Hevc { config: &color };
    assert_eq!(hevc.alpha_aux_urn(), "urn:mpeg:hevc:2015:auxid:1");
    assert_eq!(hevc.entry_type(), fourcc::HVC1);
    assert_eq!(hevc.pixel_description(), (3, 12));
    assert_eq!(CodecConfig::Hevc { config: &gray }.pixel_description(), (1, 8));
    let mut out = Vec::new();
    hevc.write_box(&mut out);
    assert_eq!(&out[4..8], b"hvcC");
}

#[test]
fn presentations() {
    assert_eq!(Presentation::of(0, 80), Presentation::Forever);
    assert_eq!(Presentation::of(1, 80), Presentation::Once);
    assert_eq!(Presentation::of(1, u64::MAX), Presentation::Once);
    assert_eq!(Presentation::of(3, 80), Presentation::Repeats(240));
    assert_eq!(Presentation::of(3, 0), Presentation::Repeats(0));
    assert_eq!(Presentation::of(2, u64::MAX / 2), Presentation::Repeats(u64::MAX - 1));
    assert_eq!(Presentation::of(2, u64::MAX / 2 + 1), Presentation::Forever);
    assert_eq!(Presentation::of(u32::MAX, 1 << 33), Presentation::Forever);

    assert!(!Presentation::Once.repeats());
    assert!(Presentation::Repeats(240).repeats());
    assert!(Presentation::Forever.repeats());

    assert_eq!(Presentation::Once.duration(80), 80);
    assert_eq!(Presentation::Repeats(240).duration(80), 240);
    assert_eq!(Presentation::Forever.duration(80), INDEFINITE_DURATION);
    assert_eq!(INDEFINITE_DURATION, u64::MAX);
}

#[test]
fn display_sizes() {
    assert_eq!(display_size(64, 48, None), (64, 48));
    assert_eq!(display_size(0, 0, None), (0, 0));
    assert_eq!(display_size(64, 48, Some(&clap((33, 1), (17, 1)))), (33, 17));
    // Only pixels wholly inside count.
    assert_eq!(display_size(64, 48, Some(&clap((67, 2), (59, 4)))), (33, 14));
    // No more than there are, and at least one.
    assert_eq!(display_size(64, 48, Some(&clap((65, 1), (u32::MAX, 1)))), (64, 48));
    assert_eq!(display_size(64, 48, Some(&clap((0, 1), (3, 4)))), (1, 1));
    // Nothing is cropped where there is no denominator, of a side of any size.
    assert_eq!(display_size(64, 48, Some(&clap((5, 0), (17, 1)))), (64, 17));
    assert_eq!(display_size(0, 48, Some(&clap((5, 0), (17, 0)))), (0, 48));
}

#[test]
fn equal_durations_share_an_entry() {
    let mut out = Vec::new();
    write_stts(&mut out, &[5, 5, 7, 5, 5, 5]);
    assert_eq!(
        out,
        b"\0\0\0\x28stts\0\0\0\0\0\0\0\x03\0\0\0\x02\0\0\0\x05\0\0\0\x01\0\0\0\x07\0\0\0\x03\0\0\0\x05"
    );

    let mut out = Vec::new();
    write_stts(&mut out, &[]);
    assert_eq!(out, b"\0\0\0\x10stts\0\0\0\0\0\0\0\0");
}

#[test]
fn sample_tables() {
    let mut out = Vec::new();
    write_stsc(&mut out, 3);
    assert_eq!(out, b"\0\0\0\x1Cstsc\0\0\0\0\0\0\0\x01\0\0\0\x01\0\0\0\x03\0\0\0\x01");

    let mut out = Vec::new();
    write_stsz(&mut out, &[&b"abc"[..], &b""[..]]);
    assert_eq!(out, b"\0\0\0\x1Cstsz\0\0\0\0\0\0\0\0\0\0\0\x02\0\0\0\x03\0\0\0\0");

    let mut out = vec![0];
    let pos = write_stco(&mut out);
    assert_eq!(pos, 17);
    assert_eq!(&out[1..17], b"\0\0\0\x14stco\0\0\0\0\0\0\0\x01");
    assert_eq!(out[pos..], STCO_PLACEHOLDER.to_be_bytes());

    let mut out = Vec::new();
    write_stss(&mut out, &[1, 4]);
    assert_eq!(out, b"\0\0\0\x18stss\0\0\0\0\0\0\0\x02\0\0\0\x01\0\0\0\x04");
}

#[test]
fn movie_header() {
    let mut out = Vec::new();
    write_mvhd(&mut out, 600, 80, 3, Presentation::Repeats(240));
    let mut expected = b"\0\0\0\x78mvhd\x01\0\0\0".to_vec();
    expected.extend([0; 16]);
    expected.extend([0, 0, 2, 88]);
    expected.extend([0, 0, 0, 0, 0, 0, 0, 240]);
    expected.extend([0, 1, 0, 0, 1, 0]);
    expected.extend([0; 10]);
    for value in [0x0001_0000u32, 0, 0, 0, 0x0001_0000, 0, 0, 0, 0x4000_0000] {
        expected.extend(value.to_be_bytes());
    }
    expected.extend([0; 24]);
    expected.extend([0, 0, 0, 3]);
    assert_eq!(out, expected);
}

#[test]
fn the_still_item_with_every_property() {
    let config = Av1CBox::default();
    let codec = CodecConfig::Av1 { config: &config, seq_header: b"" };
    let colr = ColrBox { color_primaries: 9, ..ColrBox::default() };
    let clli = ClliBox { max_content_light_level: 1, max_pic_average_light_level: 2 };
    let mdcv = MdcvBox {
        primaries: [(0, 0); 3],
        white_point: (0, 0),
        max_luminance: 0,
        min_luminance: 0,
    };
    let crop = clap((1, 1), (1, 1));
    let mut out = Vec::new();
    let pos = write_meta(
        &mut out,
        2,
        3,
        codec,
        77,
        Some(&colr),
        Some(&clli),
        Some(&mdcv),
        Some(&crop),
    );
    assert_eq!(out[pos..pos + 4], ILOC_PLACEHOLDER.to_be_bytes());
    assert_eq!(out[pos + 4..pos + 8], [0, 0, 0, 77]);
    assert_eq!(
        &out[..pos],
        b"\0\0\x01\x3Dmeta\0\0\0\0\
          \0\0\0\x21hdlr\0\0\0\0\0\0\0\0pict\0\0\0\0\0\0\0\0\0\0\0\0\0\
          \0\0\0\x0Epitm\0\0\0\0\0\x01\
          \0\0\0\x1Eiloc\0\0\0\0\x44\0\0\x01\0\x01\0\0\0\x01"
    );
    let rest = &out[pos + 8..];
    assert_eq!(
        &rest[..35],
        b"\0\0\0\x23iinf\0\0\0\0\0\x01\0\0\0\x15infe\x02\0\0\0\0\x01\0\0av01\0"
    );
    assert_eq!(
        &rest[35..35 + 64],
        b"\0\0\0\xC1iprp\0\0\0\x9Fipco\0\0\0\x14ispe\0\0\0\0\0\0\0\x02\0\0\0\x03\
          \0\0\0\x0Cav1C\x81\x04\x0C\0\0\0\0\x10pixi\0\0\0\0\x03\x08\x08\x08"
    );
    assert_eq!(
        &rest[rest.len() - 26..],
        b"\0\0\0\x1Aipma\0\0\0\0\0\0\0\x01\0\x01\x07\x01\x82\x03\x04\x05\x06\x87"
    );
}

#[test]
fn properties_that_are_not_set_leave_no_gap() {
    let config = HvcCBox { chroma_format_idc: 0, ..HvcCBox::default() };
    let codec = CodecConfig::Hevc { config: &config };
    let clli = ClliBox { max_content_light_level: 1, max_pic_average_light_level: 2 };
    let crop = clap((1, 1), (1, 1));
    let default = ColrBox::default();

    // Color information that is assumed anyway takes no place.
    let mut out = Vec::new();
    write_meta(&mut out, 2, 3, codec, 0, Some(&default), Some(&clli), None, Some(&crop));
    assert!(out.ends_with(b"ipma\0\0\0\0\0\0\0\x01\0\x01\x05\x01\x82\x03\x04\x85"));
    assert!(!out.windows(4).any(|w| w == b"colr"));
    assert!(out.windows(14).any(|w| w == b"\0\0\0\x0Epixi\0\0\0\0\x01\x08"));

    let mut out = Vec::new();
    write_meta(&mut out, 2, 3, codec, 0, None, None, None, None);
    assert!(out.ends_with(b"ipma\0\0\0\0\0\0\0\x01\0\x01\x03\x01\x82\x03"));
}

#[test]
fn tracks_end_where_they_say() {
    let config = Av1CBox::default();
    let codec = CodecConfig::Av1 { config: &config, seq_header: b"" };
    let samples = [&b"abc"[..], &b"de"[..]];
    let write = |colr: Option<&ColrBox>, is_alpha, presented| {
        let mut out = Vec::new();
        let pos = write_track(
            &mut out, 7, 70_000, 32, 1000, 30, &samples, &[10, 20], &[1], codec, colr, None,
            is_alpha, presented,
        );
        assert_eq!(out[pos..pos + 4], STCO_PLACEHOLDER.to_be_bytes());
        assert_eq!(out[..4], (out.len() as u32).to_be_bytes());
        assert_eq!(&out[4..12], b"trak\0\0\0\x68");
        out
    };
    let color = write(None, false, Presentation::Once);
    assert_eq!(&color[12..20], b"tkhd\x01\0\0\x03");
    assert_eq!(&color[36..40], [0, 0, 0, 7]);
    assert_eq!(&color[44..52], [0, 0, 0, 0, 0, 0, 0, 30]);
    assert_eq!(&color[104..112], [0xFF, 0xFF, 0xFF, 0xFF, 0, 32, 0, 0]);
    assert!(!color.windows(4).any(|w| w == b"elst" || w == b"tref" || w == b"auxi"));
    // The sample entry's size has 16 bits, and saturates too.
    let entry = color.windows(4).position(|w| w == b"av01").unwrap();
    assert_eq!(&color[entry + 4 + 24..entry + 4 + 28], [0xFF, 0xFF, 0, 32]);

    // Color information stands between the configuration and the constraints,
    // unless it is what a reader assumes.
    let colr = ColrBox { color_primaries: 9, ..ColrBox::default() };
    let stated = write(Some(&colr), false, Presentation::Once);
    assert_eq!(stated.len(), color.len() + 19);
    let config = stated.windows(4).position(|w| w == b"av1C").unwrap();
    assert_eq!(
        &stated[config + 8..config + 8 + 27],
        b"\0\0\0\x13colrnclx\0\x09\0\x0D\0\x06\x80\0\0\0\x10ccst"
    );
    assert_eq!(write(Some(&ColrBox::default()), false, Presentation::Once), color);

    let alpha = write(None, true, Presentation::Forever);
    assert_eq!(&alpha[12..20], b"tkhd\x01\0\0\x01");
    assert_eq!(&alpha[44..52], [0xFF; 8]);
    assert_eq!(
        &alpha[112..112 + 36],
        b"\0\0\0\x24edts\0\0\0\x1Celst\0\0\0\x01\0\0\0\x01\0\0\0\x1E\0\0\0\0\0\x01\0\0"
    );
    assert!(alpha.ends_with(b"\0\0\0\x14tref\0\0\0\x0Cauxl\0\0\0\x01"));
}

#[test]
fn a_segment_takes_the_version_that_can_state_it() {
    let config = Av1CBox::default();
    let codec = CodecConfig::Av1 { config: &config, seq_header: b"" };
    let edts = |duration: u64| {
        let mut out = Vec::new();
        write_track(
            &mut out, 1, 8, 8, 1000, duration, &[], &[], &[], codec, None, None, false,
            Presentation::Forever,
        );
        let mdia = out.windows(4).position(|w| w == b"mdia").unwrap();
        out[112..mdia - 4].to_vec()
    };
    assert_eq!(
        edts(0xFFFF_FFFF),
        b"\0\0\0\x24edts\0\0\0\x1Celst\0\0\0\x01\0\0\0\x01\xFF\xFF\xFF\xFF\0\0\0\0\0\x01\0\0"
    );
    assert_eq!(
        edts(0x1_0203_0405),
        b"\0\0\0\x2Cedts\0\0\0\x24elst\x01\0\0\x01\0\0\0\x01\
          \0\0\0\x01\x02\x03\x04\x05\0\0\0\0\0\0\0\0\0\x01\0\0"
    );
}
