//! Whole files, read back.
use heif_serialize::meta::ILOC_PLACEHOLDER;
use heif_serialize::presentation::fixed_16_16_saturating;
use heif_serialize::sample_table::STCO_PLACEHOLDER;
use heif_serialize::{
    AnimFrame, AnimatedImage, Av1CBox, ClapBox, ClliBox, ColrBox, HvcCBox, HvcCParameterSet, MdcvBox,
};

fn basic_av1c() -> Av1CBox {
    Av1CBox {
        seq_profile: 0,
        seq_level_idx_0: 4,
        seq_tier_0: false,
        high_bitdepth: false,
        twelve_bit: false,
        monochrome: false,
        chroma_subsampling_x: true,
        chroma_subsampling_y: true,
        chroma_sample_position: 0,
    }
}

fn mono_av1c() -> Av1CBox {
    Av1CBox {
        seq_profile: 0,
        seq_level_idx_0: 4,
        seq_tier_0: false,
        high_bitdepth: false,
        twelve_bit: false,
        monochrome: true,
        chroma_subsampling_x: true,
        chroma_subsampling_y: true,
        chroma_sample_position: 0,
    }
}

fn basic_hvcc() -> HvcCBox {
    HvcCBox {
        general_profile_idc: 1, // Main
        general_level_idc: 60,
        chroma_format_idc: 1, // 4:2:0
        bit_depth_luma: 8,
        bit_depth_chroma: 8,
        nal_length_size: 4,
        parameter_sets: vec![
            HvcCParameterSet {
                nal_unit_type: 32, // VPS
                array_completeness: true,
                data: vec![0x40, 0x01, 0x0c],
            },
            HvcCParameterSet {
                nal_unit_type: 33, // SPS
                array_completeness: true,
                data: vec![0x42, 0x01, 0x01],
            },
            HvcCParameterSet {
                nal_unit_type: 34, // PPS
                array_completeness: true,
                data: vec![0x44, 0x01, 0xc0],
            },
        ],
        ..HvcCBox::default()
    }
}

fn u32_at(data: &[u8], at: usize) -> u32 {
    u32::from_be_bytes(data[at..at + 4].try_into().unwrap())
}

/// The payloads of the boxes of a given type among the boxes in `data`.
fn boxes<'a>(data: &'a [u8], fourcc: &[u8; 4]) -> Vec<&'a [u8]> {
    let mut found = Vec::new();
    let mut at = 0;
    while at < data.len() {
        let size = u32_at(data, at) as usize;
        assert!(size >= 8 && at + size <= data.len(), "a box runs past its parent");
        if &data[at + 4..at + 8] == fourcc {
            found.push(&data[at + 8..at + size]);
        }
        at += size;
    }
    found
}

fn only<'a>(data: &'a [u8], fourcc: &[u8; 4]) -> &'a [u8] {
    let found = boxes(data, fourcc);
    assert_eq!(found.len(), 1, "expected one {}", String::from_utf8_lossy(fourcc));
    found[0]
}

fn tracks(file: &[u8]) -> Vec<&[u8]> {
    boxes(only(file, b"moov"), b"trak")
}

fn sample_table(track: &[u8]) -> &[u8] {
    only(only(only(track, b"mdia"), b"minf"), b"stbl")
}

/// The sample entry's type, and the boxes inside it.
fn sample_entry(track: &[u8]) -> (&[u8], &[u8]) {
    let stsd = only(sample_table(track), b"stsd");
    assert_eq!(u32_at(stsd, 4), 1);
    (&stsd[12..16], &stsd[8 + 8 + 78..])
}

/// The samples of a track, each with its duration.
fn samples<'a>(file: &'a [u8], track: &[u8]) -> Vec<(&'a [u8], u32)> {
    let stbl = sample_table(track);
    let stsz = only(stbl, b"stsz");
    let stts = only(stbl, b"stts");
    let mut at = u32_at(only(stbl, b"stco"), 8) as usize;
    let mut durations = Vec::new();
    for entry in 0..u32_at(stts, 4) as usize {
        for _ in 0..u32_at(stts, 8 + 8 * entry) {
            durations.push(u32_at(stts, 12 + 8 * entry));
        }
    }
    let count = u32_at(stsz, 8) as usize;
    assert_eq!(durations.len(), count);
    let mut found = Vec::new();
    for (i, duration) in durations.into_iter().enumerate() {
        let size = u32_at(stsz, 12 + 4 * i) as usize;
        found.push((&file[at..at + size], duration));
        at += size;
    }
    found
}

fn timescale(track: &[u8]) -> u32 {
    u32_at(only(only(track, b"mdia"), b"mdhd"), 4 + 8 + 8)
}

#[test]
fn serialize_color_only() {
    let frames = [
        AnimFrame::new(b"frame1color", 100).with_sync(true),
        AnimFrame::new(b"frame2color", 200),
    ];
    let mut image = AnimatedImage::new();
    image.set_color_config(basic_av1c());
    let avif = image.serialize(64, 64, &frames, b"seqhdr", None);

    // Should start with ftyp avis
    assert_eq!(&avif[4..8], b"ftyp");
    assert_eq!(&avif[8..12], b"avis");

    // Should contain mdat with frame data
    let mdat_str = b"mdat";
    assert!(avif.windows(4).any(|w| w == mdat_str));

    // Frame data should be present
    assert!(avif.windows(b"frame1color".len()).any(|w| w == b"frame1color"));
    assert!(avif.windows(b"frame2color".len()).any(|w| w == b"frame2color"));

    // Parse with zenavif-parse to verify structure
    let parser = zenavif_parse::AvifParser::from_bytes(&avif).unwrap();
    let info = parser.animation_info().expect("should have animation info");
    assert_eq!(info.timescale, 1000);
    assert_eq!(info.frame_count, 2);
}

#[test]
fn serialize_with_alpha() {
    let frames = [
        AnimFrame::new(b"c1", 500).with_alpha(b"a1").with_sync(true),
        AnimFrame::new(b"c2", 500).with_alpha(b"a2"),
    ];
    let mut image = AnimatedImage::new();
    image.set_color_config(basic_av1c());
    image.set_alpha_config(mono_av1c());
    let avif = image.serialize(32, 32, &frames, b"colseq", Some(b"alphaseq"));

    assert_eq!(&avif[4..8], b"ftyp");
    assert!(avif.windows(2).any(|w| w == b"c1"));
    assert!(avif.windows(2).any(|w| w == b"a1"));
    assert!(avif.windows(2).any(|w| w == b"c2"));
    assert!(avif.windows(2).any(|w| w == b"a2"));

    let parser = zenavif_parse::AvifParser::from_bytes(&avif).unwrap();
    let info = parser.animation_info().expect("should have animation info");
    assert_eq!(info.frame_count, 2);
}

#[test]
fn frame_payload_containing_placeholder_sentinels_is_not_corrupted() {
    // Frame payloads can legitimately hold the bytes of the placeholders. Both
    // stand in several frames at varied alignments here, and must survive.
    let stco = STCO_PLACEHOLDER.to_be_bytes();
    let iloc = ILOC_PLACEHOLDER.to_be_bytes();

    let mut frame1 = vec![0xAAu8; 33]; // odd-aligned sentinel
    frame1.extend_from_slice(&stco);
    frame1.extend_from_slice(&[0xBB; 16]);
    frame1.extend_from_slice(&iloc);
    frame1.extend_from_slice(&[0xCC; 32]);

    let mut frame2 = vec![0u8; 4]; // sentinels at start (after offset 0)
    frame2.extend_from_slice(&stco);
    frame2.extend_from_slice(&iloc);
    frame2.extend_from_slice(&[0xEE; 100]);

    let mut alpha1 = vec![0x44u8; 8];
    alpha1.extend_from_slice(&stco);
    alpha1.extend_from_slice(&[0x55; 16]);
    let mut alpha2 = vec![0x66u8; 16];
    alpha2.extend_from_slice(&iloc);
    alpha2.extend_from_slice(&[0x77; 8]);

    let frames = [
        AnimFrame::new(frame1.as_slice(), 100).with_alpha(alpha1.as_slice()).with_sync(true),
        AnimFrame::new(frame2.as_slice(), 200).with_alpha(alpha2.as_slice()),
    ];
    let mut image = AnimatedImage::new();
    image.set_color_config(basic_av1c());
    image.set_alpha_config(mono_av1c());
    let avif = image.serialize(64, 64, &frames, b"colseq", Some(b"alphaseq"));

    // Each frame's bytes must appear verbatim somewhere in the file.
    assert!(avif.windows(frame1.len()).any(|w| w == frame1.as_slice()),
        "frame1 (with both sentinels) corrupted by placeholder scan");
    assert!(avif.windows(frame2.len()).any(|w| w == frame2.as_slice()),
        "frame2 (with both sentinels) corrupted by placeholder scan");
    assert!(avif.windows(alpha1.len()).any(|w| w == alpha1.as_slice()),
        "alpha1 corrupted by placeholder scan");
    assert!(avif.windows(alpha2.len()).any(|w| w == alpha2.as_slice()),
        "alpha2 corrupted by placeholder scan");

    // The reader still resolves the animation's structure.
    let parser = zenavif_parse::AvifParser::from_bytes(&avif).unwrap();
    let info = parser.animation_info().expect("animation info");
    assert_eq!(info.frame_count, 2);
    assert_eq!(&parser.frame(0).unwrap().data[..], frame1.as_slice());
    assert_eq!(&parser.frame(1).unwrap().data[..], frame2.as_slice());
}

#[test]
fn very_large_width_does_not_panic() {
    assert_eq!(fixed_16_16_saturating(0), 0);
    assert_eq!(fixed_16_16_saturating(1), 0x0001_0000);
    assert_eq!(fixed_16_16_saturating(0xFFFF), 0xFFFF_0000);
    assert_eq!(fixed_16_16_saturating(0x1_0000), u32::MAX);
    assert_eq!(fixed_16_16_saturating(70_000), u32::MAX);
    assert_eq!(fixed_16_16_saturating(u32::MAX), u32::MAX);

    let frames = [AnimFrame::new(b"f", 100).with_sync(true)];
    let mut image = AnimatedImage::new();
    image.set_color_config(basic_av1c());
    let avif = image.serialize(70_000, 70_000, &frames, b"seq", None);
    // File is structurally valid.
    assert_eq!(&avif[4..8], b"ftyp");
    // 70000 squared is well past the reader's default ceiling, and the point
    // here is the writer's arithmetic. Raise the limit for the read-back.
    let config = zenavif_parse::DecodeConfig {
        total_megapixels_limit: None,
        ..zenavif_parse::DecodeConfig::default()
    };
    let parser = zenavif_parse::AvifParser::from_bytes_with_config(
        &avif,
        &config,
        &zenavif_parse::Unstoppable,
    )
    .unwrap();
    let info = parser.animation_info().expect("animation info");
    assert_eq!(info.frame_count, 1);
}

#[test]
fn frame_durations_roundtrip() {
    let frames = [
        AnimFrame::new(b"f1", 100).with_sync(true),
        AnimFrame::new(b"f2", 200),
        AnimFrame::new(b"f3", 300),
    ];
    let mut image = AnimatedImage::new();
    image.set_color_config(basic_av1c());
    let avif = image.serialize(16, 16, &frames, b"seq", None);
    let parser = zenavif_parse::AvifParser::from_bytes(&avif).unwrap();
    let info = parser.animation_info().expect("animation info");
    assert_eq!(info.frame_count, 3);
    assert_eq!(info.timescale, 1000);
    for (index, duration) in [100u32, 200, 300].into_iter().enumerate() {
        assert_eq!(parser.frame(index).unwrap().duration_ms, duration);
    }
}

#[test]
fn hevc_sequence_is_a_heic_sequence_the_parser_reads_back() {
    let frames = [
        AnimFrame::new(b"hevcframe1", 40).with_sync(true),
        AnimFrame::new(b"hevcframe2", 40),
        AnimFrame::new(b"hevcframe3", 40),
    ];
    let mut image = AnimatedImage::new();
    image.set_hevc_config(basic_hvcc());
    // The AV1 sequence header argument is meaningless for HEVC and must not
    // leak into the file: HEVC's parameter sets live in hvcC alone.
    let heic = image.serialize(96, 64, &frames, b"AV1SEQHEADER", None);

    assert_eq!(&heic[4..8], b"ftyp");
    assert_eq!(&heic[8..12], b"hevc");
    assert!(
        heic.windows(4).any(|w| w == b"msf1"),
        "an image sequence must declare the msf1 brand"
    );
    assert!(
        !heic.windows(4).any(|w| w == b"av01") && !heic.windows(4).any(|w| w == b"av1C"),
        "no AV1 structures belong in an HEVC file"
    );
    assert!(
        !heic.windows(12).any(|w| w == b"AV1SEQHEADER"),
        "the AV1 sequence header argument must be ignored, not written"
    );
    for frame in &frames {
        assert!(heic.windows(frame.color.len()).any(|w| w == frame.color));
    }

    let tracks = tracks(&heic);
    assert_eq!(tracks.len(), 1);
    let read = samples(&heic, tracks[0]);
    assert_eq!(read.len(), 3);
    assert_eq!(timescale(tracks[0]), 1000);

    // The track's own sample entry must carry the configuration.
    let (kind, entry) = sample_entry(tracks[0]);
    assert_eq!(kind, b"hvc1");
    let config = only(entry, b"hvcC");
    assert_eq!(config[21] % 4 + 1, 4, "nal_length_size");
    assert_eq!(config[22], 3, "one array for each type");
    let mut at = 23;
    let mut types = Vec::new();
    for _ in 0..config[22] {
        assert_eq!(config[at] >> 7, 1, "array_completeness");
        assert_eq!(&config[at + 1..at + 3], &[0, 1], "one unit");
        types.push(config[at] & 0x3f);
        at += 5 + u16::from_be_bytes([config[at + 3], config[at + 4]]) as usize;
    }
    assert_eq!(at, config.len());
    assert_eq!(types, vec![32, 33, 34]);

    for index in 0..read.len() {
        let (data, duration_ticks) = read[index];
        assert_eq!(data, frames[index].color);
        assert_eq!(duration_ticks, 40);
    }
}

#[test]
fn hevc_sequence_carries_alpha_in_its_own_track() {
    let frames = [
        AnimFrame::new(b"c1", 100).with_alpha(b"a1").with_sync(true),
        AnimFrame::new(b"c2", 100).with_alpha(b"a2"),
    ];
    let mut image = AnimatedImage::new();
    image.set_hevc_config(basic_hvcc());
    let mut alpha = basic_hvcc();
    alpha.chroma_format_idc = 0; // monochrome
    image.set_alpha_hevc_config(alpha);
    let heic = image.serialize(32, 32, &frames, b"", None);

    let tracks = tracks(&heic);
    assert_eq!(samples(&heic, tracks[0]).len(), 2);
    assert_eq!(tracks.len(), 2, "the alpha track should be found");
    let hdlr = only(only(tracks[1], b"mdia"), b"hdlr");
    assert_eq!(&hdlr[8..12], b"auxv");
    let (kind, entry) = sample_entry(tracks[1]);
    assert_eq!(kind, b"hvc1");
    assert_eq!(&only(entry, b"auxi")[4..], b"urn:mpeg:hevc:2015:auxid:1\0");
    for name in [&b"a1"[..], &b"a2"[..]] {
        assert!(heic.windows(2).any(|w| w == name));
    }
    assert_eq!(samples(&heic, tracks[1]), vec![(&b"a1"[..], 100), (&b"a2"[..], 100)]);
}

#[test]
fn an_hevc_colour_track_without_an_alpha_config_writes_no_alpha_track() {
    // Alpha data with nothing to decode it against is not an alpha track.
    let frames = [AnimFrame::new(b"c1", 100).with_alpha(b"a1").with_sync(true)];
    let mut image = AnimatedImage::new();
    image.set_hevc_config(basic_hvcc());
    let heic = image.serialize(32, 32, &frames, b"", None);

    assert_eq!(tracks(&heic).len(), 1);
    assert!(!heic.windows(2).any(|w| w == b"a1"), "alpha data was written anyway");
}

/// The duration field of the first box of a given type, as a u64.
fn duration_of(file: &[u8], fourcc: &[u8; 4], version_1_offset: usize) -> u64 {
    let at = file
        .windows(4)
        .position(|w| w == fourcc)
        .unwrap_or_else(|| panic!("no {} box", std::str::from_utf8(fourcc).unwrap()));
    let payload = at + 4 + 4; // past the fourcc and the version/flags word
    let start = payload + version_1_offset;
    u64::from_be_bytes(file[start..start + 8].try_into().unwrap())
}

/// Loop-forever is signalled by an indefinite duration, not by the edit list's
/// flag alone, which on its own reads as one play.
#[test]
fn repeating_forever_leaves_the_duration_indefinite() {
    let frames = [
        AnimFrame::new(b"f1", 40).with_sync(true),
        AnimFrame::new(b"f2", 40),
    ];
    let mut image = AnimatedImage::new();
    image.set_color_config(basic_av1c());

    image.set_loop_count(0); // forever
    let forever = image.serialize(16, 16, &frames, b"seq", None);
    assert!(
        forever.windows(4).any(|w| w == b"elst"),
        "a repeating track needs an edit list"
    );
    // mvhd is version 1: creation and modification are 8 bytes each, then a
    // 4-byte timescale, then the duration.
    assert_eq!(duration_of(&forever, b"mvhd", 8 + 8 + 4), u64::MAX);
    // tkhd is version 1: creation, modification, a 4-byte track id and a
    // 4-byte reserved word come before the duration.
    assert_eq!(duration_of(&forever, b"tkhd", 8 + 8 + 4 + 4), u64::MAX);
    // The media itself is still exactly as long as its samples.
    assert_eq!(duration_of(&forever, b"mdhd", 8 + 8 + 4), 80);

    image.set_loop_count(1); // once
    let once = image.serialize(16, 16, &frames, b"seq", None);
    assert!(
        !once.windows(4).any(|w| w == b"elst"),
        "no edit list means play once"
    );
    assert_eq!(duration_of(&once, b"mvhd", 8 + 8 + 4), 80);
    assert_eq!(duration_of(&once, b"tkhd", 8 + 8 + 4 + 4), 80);

    // A finite count is not "forever or once": the reader divides the track's
    // duration by the edit segment's, so three plays is three times the media.
    image.set_loop_count(3);
    let thrice = image.serialize(16, 16, &frames, b"seq", None);
    assert!(thrice.windows(4).any(|w| w == b"elst"));
    assert_eq!(duration_of(&thrice, b"mvhd", 8 + 8 + 4), 240);
    assert_eq!(duration_of(&thrice, b"tkhd", 8 + 8 + 4 + 4), 240);
    // The media is still exactly as long as its samples, and the edit segment
    // covers it once.
    assert_eq!(duration_of(&thrice, b"mdhd", 8 + 8 + 4), 80);
    let elst = thrice
        .windows(4)
        .position(|w| w == b"elst")
        .expect("an edit list");
    let segment = u32::from_be_bytes(thrice[elst + 12..elst + 16].try_into().unwrap());
    assert_eq!(segment, 80, "the segment is one pass over the media");
}

#[test]
fn coding_constraints_state_whether_the_track_is_all_intra() {
    // A track that is not all-intra must not say it is.
    let ccst_payload = |heic: &[u8]| -> u8 {
        let at = heic.windows(4).position(|w| w == b"ccst").expect("ccst");
        heic[at + 8] // past the fourcc and the version/flags word
    };

    let mut image = AnimatedImage::new();
    image.set_hevc_config(basic_hvcc());

    let all_intra = [
        AnimFrame::new(b"k1", 10).with_sync(true),
        AnimFrame::new(b"k2", 10).with_sync(true),
    ];
    assert_eq!(
        ccst_payload(&image.serialize(16, 16, &all_intra, b"", None)) >> 7,
        1,
        "every sample is a sync sample, so all_ref_pics_intra should be set"
    );

    let inter = [
        AnimFrame::new(b"k1", 10).with_sync(true),
        AnimFrame::new(b"p2", 10),
    ];
    assert_eq!(
        ccst_payload(&image.serialize(16, 16, &inter, b"", None)) >> 7,
        0,
        "a track with inter frames must not claim to be all-intra"
    );
}

// ─── What a reader gets back ─────────────────────────────────────────

fn u64_at(data: &[u8], at: usize) -> u64 {
    u64::from_be_bytes(data[at..at + 8].try_into().unwrap())
}

/// The numbers of the sync samples of a track.
fn sync(track: &[u8]) -> Vec<u32> {
    let stss = only(sample_table(track), b"stss");
    (0..u32_at(stss, 4) as usize).map(|i| u32_at(stss, 8 + 4 * i)).collect()
}

/// How often a track plays; `None` is forever.
fn plays(track: &[u8]) -> Option<u64> {
    let duration = u64_at(only(track, b"tkhd"), 28);
    let edits = boxes(track, b"edts");
    if edits.is_empty() {
        return Some(1);
    }
    let elst = only(edits[0], b"elst");
    assert_eq!(elst[3], 1, "the edit list repeats");
    if duration == u64::MAX {
        None
    } else {
        let segment = if elst[0] == 0 { u64::from(u32_at(elst, 8)) } else { u64_at(elst, 8) };
        assert_eq!(segment, u64_at(only(only(track, b"mdia"), b"mdhd"), 24), "one pass");
        Some(duration / segment)
    }
}

/// The types of the boxes in `data`, in order.
fn kinds(data: &[u8]) -> Vec<String> {
    let mut found = Vec::new();
    let mut at = 0;
    while at < data.len() {
        found.push(String::from_utf8_lossy(&data[at + 4..at + 8]).into_owned());
        at += u32_at(data, at) as usize;
    }
    found
}

/// The still item's properties, and their associations.
fn properties(file: &[u8]) -> (&[u8], &[u8]) {
    let iprp = only(&only(file, b"meta")[4..], b"iprp");
    let ipma = only(iprp, b"ipma");
    assert_eq!(ipma.len(), 11 + ipma[10] as usize);
    (only(iprp, b"ipco"), &ipma[11..])
}

/// The still item's data.
fn still_item(file: &[u8]) -> &[u8] {
    let iloc = only(&only(file, b"meta")[4..], b"iloc");
    let at = u32_at(iloc, 14) as usize;
    &file[at..at + u32_at(iloc, 18) as usize]
}

#[test]
fn samples_durations_and_sync_frames_read_back() {
    let frames = [
        AnimFrame::new(b"one", 5).with_sync(true),
        AnimFrame::new(b"", 5).with_alpha(b"alpha two"),
        AnimFrame::new(b"three", 7).with_alpha(b"").with_sync(true),
        AnimFrame::new(b"four", 5).with_alpha(b"a4"),
    ];
    let mut image = AnimatedImage::new();
    image.set_alpha_config(mono_av1c()).set_timescale(90_000);
    let file = image.serialize(8, 8, &frames, b"c", Some(b"a"));
    assert_eq!(kinds(&file), ["ftyp", "meta", "moov", "mdat"]);
    assert_eq!(only(&file, b"mdat"), b"onethreefouralpha twoa4");
    assert_eq!(still_item(&file), b"one");

    let tracks = tracks(&file);
    assert_eq!(
        samples(&file, tracks[0]),
        vec![(&b"one"[..], 5), (&b""[..], 5), (&b"three"[..], 7), (&b"four"[..], 5)]
    );
    // A frame without alpha data has an empty sample in the alpha track.
    assert_eq!(
        samples(&file, tracks[1]),
        vec![(&b""[..], 5), (&b"alpha two"[..], 5), (&b""[..], 7), (&b"a4"[..], 5)]
    );
    for (index, track) in tracks.iter().enumerate() {
        assert_eq!(sync(track), [1, 3]);
        assert_eq!(timescale(track), 90_000);
        assert_eq!(u64_at(only(only(track, b"mdia"), b"mdhd"), 24), 22);
        assert_eq!(u32_at(only(sample_table(track), b"stsc"), 12), 4, "one chunk");
        assert_eq!(u32_at(only(track, b"tkhd"), 20), index as u32 + 1);
    }
    assert_eq!(u32_at(only(only(&file, b"moov"), b"mvhd"), 108), 3, "next_track_id");
    assert_eq!(u32_at(only(only(tracks[1], b"tref"), b"auxl"), 0), 1);
}

#[test]
fn no_frames_make_an_empty_sequence() {
    let file = AnimatedImage::new().serialize(8, 8, &[], b"c", None);
    assert_eq!(kinds(&file), ["ftyp", "meta", "moov", "mdat"]);
    assert_eq!(only(&file, b"mdat"), b"");
    assert_eq!(still_item(&file), b"");
    let tracks = tracks(&file);
    assert_eq!(tracks.len(), 1);
    assert_eq!(samples(&file, tracks[0]), vec![]);
    assert_eq!(sync(tracks[0]), []);
    // Every one of no frames is a sync frame.
    assert_eq!(only(sample_entry(tracks[0]).1, b"ccst")[4], 0xC0);
}

#[test]
fn plays_read_back() {
    let frames = [AnimFrame::new(b"f1", 30), AnimFrame::new(b"f2", 50)];
    let mut image = AnimatedImage::new();
    for (count, read) in
        [(0, None), (1, Some(1)), (2, Some(2)), (7, Some(7)), (u32::MAX, Some(4_294_967_295))]
    {
        image.set_loop_count(count);
        let file = image.serialize(8, 8, &frames, b"c", None);
        let track = tracks(&file)[0];
        assert_eq!(plays(track), read);
        assert_eq!(
            u64_at(only(only(&file, b"moov"), b"mvhd"), 24),
            u64_at(only(track, b"tkhd"), 28),
            "the movie lasts as long as its track"
        );
        assert_eq!(u32_at(only(only(&file, b"moov"), b"mvhd"), 20), 1000);
    }
}

#[test]
fn plays_of_long_media_read_back() {
    let frames = [AnimFrame::new(b"f1", 0x8000_0000), AnimFrame::new(b"f2", 0x8000_0001)];
    let mut image = AnimatedImage::new();
    for (count, read) in [(0, None), (1, Some(1)), (2, Some(2)), (1_000_000, Some(1_000_000))] {
        image.set_loop_count(count);
        let file = image.serialize(8, 8, &frames, b"c", None);
        assert_eq!(plays(tracks(&file)[0]), read);
    }
}

#[test]
fn color_is_stated_on_the_track_as_well_as_on_the_item() {
    let frames = [AnimFrame::new(b"f", 1).with_alpha(b"a")];
    let colr = ColrBox { color_primaries: 12, full_range_flag: false, ..ColrBox::default() };
    let mut image = AnimatedImage::new();
    image.set_alpha_config(mono_av1c()).set_colr(colr);
    let file = image.serialize(8, 8, &frames, b"c", Some(b"s"));
    let found = tracks(&file);
    let stated = only(sample_entry(found[0]).1, b"colr");
    assert_eq!(stated, b"nclx\0\x0C\0\x0D\0\x06\0");
    assert_eq!(stated, only(properties(&file).0, b"colr"));
    assert_eq!(kinds(sample_entry(found[0]).1), ["av1C", "colr", "ccst"]);
    // Alpha has no color.
    assert_eq!(kinds(sample_entry(found[1]).1), ["av1C", "auxi", "ccst"]);

    image.set_hevc_config(basic_hvcc()).set_colr(ColrBox::default());
    let file = image.serialize(8, 8, &frames, b"c", None);
    assert_eq!(kinds(sample_entry(tracks(&file)[0]).1), ["hvcC", "ccst"]);
    image.set_colr(colr);
    let file = image.serialize(8, 8, &frames, b"c", None);
    assert_eq!(only(sample_entry(tracks(&file)[0]).1, b"colr"), only(properties(&file).0, b"colr"));
}

#[test]
fn the_item_that_is_described_is_the_primary_one() {
    let file = AnimatedImage::new().serialize(8, 8, &[AnimFrame::new(b"f", 1)], b"c", None);
    let meta = &only(&file, b"meta")[4..];
    let pitm = only(meta, b"pitm");
    let iloc = only(meta, b"iloc");
    let iinf = only(meta, b"iinf");
    let infe = only(&iinf[6..], b"infe");
    let ipma = only(only(meta, b"iprp"), b"ipma");
    let id = &pitm[4..6];
    assert_eq!(id, [0, 1]);
    assert_eq!(&iloc[8..10], id);
    assert_eq!(&infe[4..6], id);
    assert_eq!(&ipma[8..10], id);
    assert_eq!((pitm[0], iloc[0], iinf[0], infe[0], ipma[0]), (0, 0, 0, 2, 0));
    assert_eq!(&iloc[4..8], [0x44, 0, 0, 1], "one item, four-byte offsets and lengths");
}

#[test]
fn headers_state_the_version_of_their_fields() {
    let file = AnimatedImage::new().serialize(8, 8, &[AnimFrame::new(b"f", 1)], b"c", None);
    let movie = only(&file, b"moov");
    let track = tracks(&file)[0];
    for header in [only(movie, b"mvhd"), only(track, b"tkhd"), only(only(track, b"mdia"), b"mdhd")] {
        assert_eq!(header[0], 1, "64-bit times and durations");
    }
    let stbl = sample_table(track);
    assert_eq!(u32_at(only(stbl, b"stsc"), 4), 1, "one entry");
    assert_eq!(u32_at(only(stbl, b"stco"), 4), 1, "one chunk");
    assert_eq!(u32_at(only(stbl, b"stsz"), 4), 0, "every sample has its own size");
}

#[test]
fn boxes_stand_in_their_order() {
    let frames = [AnimFrame::new(b"f", 1).with_alpha(b"a")];
    let mut image = AnimatedImage::new();
    image.set_alpha_config(mono_av1c());
    let file = image.serialize(8, 8, &frames, b"c", Some(b"s"));
    assert_eq!(kinds(&file), ["ftyp", "meta", "moov", "mdat"]);
    assert_eq!(
        kinds(&only(&file, b"meta")[4..]),
        ["hdlr", "pitm", "iloc", "iinf", "iprp"]
    );
    assert_eq!(kinds(only(&file, b"moov")), ["mvhd", "trak", "trak"]);
    let found = tracks(&file);
    assert_eq!(kinds(found[0]), ["tkhd", "edts", "mdia"]);
    assert_eq!(kinds(found[1]), ["tkhd", "edts", "mdia", "tref"]);
    for track in found {
        let mdia = only(track, b"mdia");
        assert_eq!(kinds(mdia), ["mdhd", "hdlr", "minf"]);
        assert_eq!(kinds(only(mdia, b"minf")), ["vmhd", "dinf", "stbl"]);
        assert_eq!(
            kinds(sample_table(track)),
            ["stsd", "stts", "stsc", "stsz", "stco", "stss"]
        );
    }
    image.set_loop_count(1);
    let file = image.serialize(8, 8, &frames, b"c", None);
    assert_eq!(kinds(only(&file, b"moov")), ["mvhd", "trak"]);
    assert_eq!(u32_at(only(only(&file, b"moov"), b"mvhd"), 108), 2, "next_track_id");
    assert_eq!(kinds(tracks(&file)[0]), ["tkhd", "mdia"]);
}

#[test]
fn plays_that_cannot_be_counted_are_forever() {
    let frames = [AnimFrame::new(b"f1", u32::MAX), AnimFrame::new(b"f2", u32::MAX)];
    let mut image = AnimatedImage::new();
    image.set_loop_count(u32::MAX);
    let file = image.serialize(8, 8, &frames, b"c", None);
    assert_eq!(plays(tracks(&file)[0]), None);
}

#[test]
fn the_shown_size_is_the_cropped_one() {
    let frames = [AnimFrame::new(b"f", 1).with_alpha(b"a")];
    let crop = ClapBox {
        width_n: 67,
        width_d: 2,
        height_n: 0,
        height_d: 1,
        horiz_off_n: -3,
        horiz_off_d: 2,
        vert_off_n: 0,
        vert_off_d: 1,
    };
    let mut image = AnimatedImage::new();
    image.set_hevc_config(basic_hvcc()).set_alpha_hevc_config(basic_hvcc());
    let file = image.serialize(64, 48, &frames, b"", None);
    for track in tracks(&file) {
        let tkhd = only(track, b"tkhd");
        assert_eq!((u32_at(tkhd, 88), u32_at(tkhd, 92)), (64 << 16, 48 << 16));
        assert!(boxes(sample_entry(track).1, b"clap").is_empty());
    }
    image.set_clean_aperture(crop);
    let file = image.serialize(64, 48, &frames, b"", None);
    let item = only(properties(&file).0, b"clap");
    assert_eq!(u32_at(item, 0), 67);
    assert_eq!(u32_at(item, 16) as i32, -3);
    for track in tracks(&file) {
        let tkhd = only(track, b"tkhd");
        assert_eq!((u32_at(tkhd, 88), u32_at(tkhd, 92)), (33 << 16, 1 << 16));
        assert_eq!(only(sample_entry(track).1, b"clap"), item);
    }
    let ispe = only(properties(&file).0, b"ispe");
    assert_eq!((u32_at(ispe, 4), u32_at(ispe, 8)), (64, 48), "the item is coded at its full size");
}

#[test]
fn properties_are_associated_by_their_place() {
    let frames = [AnimFrame::new(b"f", 1)];
    let mut image = AnimatedImage::new();
    let file = image.serialize(4, 4, &frames, b"c", None);
    let (ipco, list) = properties(&file);
    assert_eq!(kinds(ipco), ["ispe", "av1C", "pixi"]);
    assert_eq!(list, [0x01, 0x82, 0x03]);

    image
        .set_colr(ColrBox { transfer_characteristics: 16, ..ColrBox::default() })
        .set_clli(ClliBox { max_content_light_level: 1000, max_pic_average_light_level: 400 })
        .set_mdcv(MdcvBox {
            primaries: [(1, 2), (3, 4), (5, 6)],
            white_point: (7, 8),
            max_luminance: 9,
            min_luminance: 10,
        })
        .set_clean_aperture(ClapBox {
            width_n: 3,
            width_d: 1,
            height_n: 3,
            height_d: 1,
            horiz_off_n: 0,
            horiz_off_d: 1,
            vert_off_n: 0,
            vert_off_d: 1,
        });
    let file = image.serialize(4, 4, &frames, b"c", None);
    let (ipco, list) = properties(&file);
    assert_eq!(kinds(ipco), ["ispe", "av1C", "pixi", "colr", "clli", "mdcv", "clap"]);
    assert_eq!(list, [0x01, 0x82, 0x03, 0x04, 0x05, 0x06, 0x87]);
    assert_eq!(only(ipco, b"colr"), b"nclx\0\x01\0\x10\0\x06\x80");
    assert_eq!(only(ipco, b"clli"), b"\x03\xE8\x01\x90");
    assert_eq!(only(ipco, b"mdcv")[16..], [0, 0, 0, 9, 0, 0, 0, 10]);

    image.set_hevc_config(basic_hvcc());
    let file = image.serialize(4, 4, &frames, b"c", None);
    let (ipco, list) = properties(&file);
    assert_eq!(kinds(ipco)[1], "hvcC");
    assert_eq!(list[1], 0x82);
    let iinf = only(&only(&file, b"meta")[4..], b"iinf");
    assert_eq!(&only(&iinf[6..], b"infe")[8..12], b"hvc1");
}

#[test]
fn color_that_is_assumed_anyway_is_not_stated() {
    let frames = [AnimFrame::new(b"f", 1)];
    let mut image = AnimatedImage::new();
    let unstated = image.serialize(4, 4, &frames, b"c", None);
    image.set_colr(ColrBox::default());
    assert_eq!(image.serialize(4, 4, &frames, b"c", None), unstated);
    image.set_colr(ColrBox { full_range_flag: false, ..ColrBox::default() });
    assert_ne!(image.serialize(4, 4, &frames, b"c", None), unstated);
}

#[test]
fn an_hevc_file_does_not_depend_on_av1_settings() {
    let frames = [AnimFrame::new(b"f", 1).with_alpha(b"a").with_sync(true)];
    let mut plain = AnimatedImage::new();
    plain.set_hevc_config(basic_hvcc()).set_alpha_hevc_config(basic_hvcc());
    let mut mixed = AnimatedImage::default();
    mixed
        .set_color_config(mono_av1c())
        .set_alpha_config(mono_av1c())
        .set_hevc_config(basic_hvcc())
        .set_alpha_hevc_config(basic_hvcc());
    assert_eq!(
        plain.serialize(4, 4, &frames, b"", None),
        mixed.serialize(4, 4, &frames, b"color", Some(b"alpha"))
    );
}

#[test]
fn an_av1_file_does_not_depend_on_the_hevc_alpha_setting() {
    let frames = [AnimFrame::new(b"f", 1).with_alpha(b"a").with_sync(true)];
    let mut image = AnimatedImage::new();
    image.set_alpha_config(mono_av1c());
    let before = image.serialize(4, 4, &frames, b"color", Some(b"alpha"));
    image.set_alpha_hevc_config(basic_hvcc());
    assert_eq!(image.serialize(4, 4, &frames, b"color", Some(b"alpha")), before);
}

#[test]
fn alpha_needs_data_a_configuration_and_a_sequence_header() {
    let opaque = [AnimFrame::new(b"f", 1)];
    let frames = [AnimFrame::new(b"f", 1).with_alpha(b"alpha data")];
    let mut image = AnimatedImage::new();
    let without = image.serialize(4, 4, &opaque, b"c", None);
    // No configuration.
    assert_eq!(image.serialize(4, 4, &frames, b"c", Some(b"s")), without);
    // No sequence header.
    image.set_alpha_config(mono_av1c());
    assert_eq!(image.serialize(4, 4, &frames, b"c", None), without);
    // No data.
    assert_eq!(image.serialize(4, 4, &opaque, b"c", Some(b"s")), without);
    // All three.
    let file = image.serialize(4, 4, &frames, b"c", Some(b"s"));
    let tracks = tracks(&file);
    assert_eq!(tracks.len(), 2);
    assert_eq!(samples(&file, tracks[1]), vec![(&b"alpha data"[..], 1)]);
    let (kind, entry) = sample_entry(tracks[1]);
    assert_eq!(kind, b"av01");
    assert_eq!(
        &only(entry, b"auxi")[4..],
        b"urn:mpeg:mpegB:cicp:systems:auxiliary:alpha\0"
    );
    assert_eq!(only(entry, b"av1C"), b"\x81\x04\x1C\0s");
    assert_eq!(kinds(sample_entry(tracks[0]).1), ["av1C", "ccst"]);
    assert_eq!(&only(only(tracks[0], b"mdia"), b"hdlr")[8..12], b"pict");
    assert_eq!(&only(only(tracks[1], b"mdia"), b"hdlr")[8..12], b"auxv");
}

#[test]
fn tables_do_not_depend_on_the_coding() {
    let frames = [AnimFrame::new(b"f1", 3).with_sync(true), AnimFrame::new(b"f22", 4)];
    let mut image = AnimatedImage::new();
    let av1 = image.serialize(4, 4, &frames, b"c", None);
    image.set_hevc_config(basic_hvcc());
    let hevc = image.serialize(4, 4, &frames, b"c", None);
    let (a, b) = (tracks(&av1)[0], tracks(&hevc)[0]);
    for kind in [b"stts", b"stsc", b"stsz", b"stss"] {
        assert_eq!(only(sample_table(a), kind), only(sample_table(b), kind));
    }
    assert_eq!(only(a, b"tkhd"), only(b, b"tkhd"));
    assert_eq!(only(a, b"edts"), only(b, b"edts"));
    for kind in [b"mdhd", b"hdlr"] {
        assert_eq!(only(only(a, b"mdia"), kind), only(only(b, b"mdia"), kind));
    }
    let minf = |track| only(only(track, b"mdia"), b"minf");
    for kind in [b"vmhd", b"dinf"] {
        assert_eq!(only(minf(a), kind), only(minf(b), kind));
    }
    assert_eq!(kinds(a), kinds(b));
    assert_eq!(only(only(&av1, b"moov"), b"mvhd"), only(only(&hevc, b"moov"), b"mvhd"));
    assert_eq!(properties(&av1).1, properties(&hevc).1);
    assert_ne!(sample_entry(a).0, sample_entry(b).0);
}

#[test]
fn frames_start_without_alpha_and_sync() {
    let frame = AnimFrame::new(b"c", 9);
    assert_eq!((frame.color, frame.alpha, frame.duration, frame.is_sync), (&b"c"[..], None, 9, false));
    let frame = frame.with_alpha(b"a").with_sync(true);
    assert_eq!(frame.alpha, Some(&b"a"[..]));
    assert!(frame.is_sync);
    assert!(!frame.with_sync(false).is_sync);
}
