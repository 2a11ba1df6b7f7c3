//! The samples.
use vstd::prelude::*;

use crate::bytes;
use crate::fourcc::MDAT;
use crate::framing;
use crate::navigation;
use crate::reader;
use crate::sample_table;
use crate::sequence;
use crate::sequence::SequenceView;

verus! {

/// The fields of a size table.
pub proof fn lemma_stsz_fields(samples: Seq<Seq<u8>>)
    requires
        sample_table::stsz_box(samples).len() <= u32::MAX,
    ensures
        ({
            let stsz = navigation::payload(sample_table::stsz_box(samples));
            &&& bytes::u32_at(stsz, 4) == 0
            &&& bytes::u32_at(stsz, 8) == samples.len()
            &&& forall|i: int|
                0 <= i < samples.len() ==> #[trigger] reader::size_at(stsz, i) == bytes::low32(
                    samples[i].len() as int,
                )
        }),
{
    broadcast use {framing::group_framing, bytes::lemma_be32_table_len};

    reveal(sample_table::stsz_box);
    let stsz = navigation::payload(sample_table::stsz_box(samples));
    let sizes = sample_table::sizes(samples);
    let n = bytes::low32(samples.len() as int);
    let nothing = Seq::<u8>::empty();
    let head = framing::version_flags(0, 0) + bytes::be32(0);
    assert(stsz == head + (bytes::be32(n) + bytes::be32_table(sizes))) by {
        broadcast use navigation::lemma_payload;

    }
    bytes::lemma_u32_at(
        framing::version_flags(0, 0),
        0,
        bytes::be32(n) + bytes::be32_table(sizes),
    );
    bytes::lemma_u32_at(head, n, bytes::be32_table(sizes));
    assert(stsz == (head + bytes::be32(n)) + (bytes::be32_table(sizes) + nothing));
    assert forall|i: int| 0 <= i < samples.len() implies #[trigger] reader::size_at(stsz, i)
        == bytes::low32(samples[i].len() as int) by {
        bytes::lemma_be32_table_at(head + bytes::be32(n), sizes, nothing, i);
    }
}

/// A file whose size 32 bits can state has no more frames than they can count.
pub proof fn lemma_few_frames(sequence: SequenceView)
    requires
        sequence.file().len() <= u32::MAX,
    ensures
        sequence.frames.len() <= u32::MAX,
        sequence::timing_fits(sequence.frames),
        0 <= sequence::total_duration(sequence.frames) <= u64::MAX,
{
    broadcast use {framing::group_framing, bytes::lemma_be32_table_len};

    navigation::lemma_track_tables(sequence, 0);
    reveal(sample_table::stsz_box);
    sequence::lemma_timing_fits(sequence.frames);
}

/// The fields of a chunk table.
proof fn lemma_stsc_fields(samples: nat)
    requires
        samples <= u32::MAX,
    ensures
        ({
            let stsc = navigation::payload(sample_table::stsc_box(samples));
            &&& bytes::u32_at(stsc, 4) == 1
            &&& bytes::u32_at(stsc, 8) == 1
            &&& bytes::u32_at(stsc, 12) == samples
        }),
{
    broadcast use framing::group_framing;

    let n = bytes::low32(samples as int);
    let stsc = navigation::payload(sample_table::stsc_box(samples));
    let head = framing::version_flags(0, 0);
    let one = bytes::be32(1);
    assert(stsc == head + (one + (one + (bytes::be32(n) + one)))) by {
        broadcast use navigation::lemma_payload;

        reveal(sample_table::stsc_box);
    }
    bytes::lemma_u32_at(head, 1, one + (bytes::be32(n) + one));
    assert(stsc == (head + one) + (one + (bytes::be32(n) + one)));
    bytes::lemma_u32_at(head + one, 1, bytes::be32(n) + one);
    assert(stsc == (head + one + one) + (bytes::be32(n) + one));
    bytes::lemma_u32_at(head + one + one, n, one);
}

/// The fields of an offset table.
pub proof fn lemma_stco_fields(offset: u32)
    ensures
        bytes::u32_at(navigation::payload(sample_table::stco_box(offset)), 4) == 1,
        bytes::u32_at(navigation::payload(sample_table::stco_box(offset)), 8) == offset,
{
    broadcast use framing::group_framing;

    reveal(sample_table::stco_box);
    let nothing = Seq::<u8>::empty();
    let head = framing::version_flags(0, 0) + bytes::be32(1);
    assert(navigation::payload(sample_table::stco_box(offset)) == head + (bytes::be32(offset)
        + nothing)) by {
        broadcast use navigation::lemma_payload;

    }
    bytes::lemma_u32_at(framing::version_flags(0, 0), 1, bytes::be32(offset) + nothing);
    bytes::lemma_u32_at(head, offset, nothing);
}

/// The samples before the `i`th, the `i`th, and those after it.
proof fn lemma_concat_at(samples: Seq<Seq<u8>>, i: int)
    requires
        0 <= i < samples.len(),
    ensures
        bytes::concat(samples) == bytes::concat(samples.take(i)) + (samples[i] + bytes::concat(
            samples.skip(i + 1),
        )),
{
    broadcast use bytes::lemma_append_twice;

    assert(samples =~= samples.take(i + 1) + samples.skip(i + 1));
    assert(samples.take(i + 1).drop_last() =~= samples.take(i));
    bytes::lemma_concat_add(samples.take(i + 1), samples.skip(i + 1));
}

/// The stated sizes of the samples before the `i`th add up to where it starts.
pub proof fn lemma_sizes_before(stsz: Seq<u8>, samples: Seq<Seq<u8>>, n: nat)
    requires
        n <= samples.len(),
        bytes::concat(samples).len() <= u32::MAX,
        forall|i: int|
            0 <= i < samples.len() ==> #[trigger] reader::size_at(stsz, i) == bytes::low32(
                samples[i].len() as int,
            ),
    ensures
        reader::sizes_before(stsz, n) == bytes::concat(samples.take(n as int)).len(),
        n < samples.len() ==> reader::size_at(stsz, n as int) == samples[n as int].len(),
    decreases n,
{
    if n < samples.len() {
        lemma_concat_at(samples, n as int);
    }
    if n > 0 {
        lemma_sizes_before(stsz, samples, (n - 1) as nat);
        assert(samples.take(n as int).drop_last() =~= samples.take(n - 1));
    }
}

/// A sample of a track lies where the track says.
#[verifier::rlimit(30)]
proof fn lemma_sample(sequence: SequenceView, k: nat, i: nat)
    requires
        sequence.file().len() <= u32::MAX,
        navigation::has_track(sequence, k),
        i < sequence.frames.len(),
    ensures
        reader::sample(sequence.file(), k, i) == Some(
            navigation::nth_track(sequence, k).samples[i as int],
        ),
{
    broadcast use framing::group_framing;

    let file = sequence.file();
    let samples = navigation::nth_track(sequence, k).samples;
    let start = navigation::nth_start(sequence, k);
    navigation::lemma_file(sequence);
    navigation::lemma_track_tables(sequence, k);
    lemma_few_frames(sequence);
    lemma_stsz_fields(samples);
    lemma_stsc_fields(samples.len());
    lemma_stco_fields(start as u32);
    let stsz = navigation::payload(sample_table::stsz_box(samples));
    lemma_sizes_before(stsz, samples, i);
    lemma_concat_at(samples, i as int);
    let color = bytes::concat(sequence.color_samples());
    let alpha = bytes::concat(sequence.alpha_samples());
    let head = sequence.head(
        bytes::low32(sequence.color_start()),
        bytes::low32(sequence.alpha_start()),
    );
    navigation::lemma_head_len(
        sequence,
        bytes::low32(sequence.color_start()),
        bytes::low32(sequence.alpha_start()),
    );
    reveal(framing::mp4_box);
    let size = bytes::be32(bytes::low32(8 + (color + alpha).len() as int));
    let before = head + (size + bytes::be32(MDAT));
    assert(file == before + (color + alpha));
    assert(before.len() == sequence.color_start());
    let at = start + bytes::concat(samples.take(i as int)).len();
    assert(file.subrange(at, at + samples[i as int].len()) =~= samples[i as int]);
}

/// Every frame's color data reads back, byte for byte, from the color track.
pub proof fn law_color_reads_back(sequence: SequenceView, i: nat)
    requires
        sequence.file().len() <= u32::MAX,
        i < sequence.frames.len(),
    ensures
        reader::sample(sequence.file(), 0, i) == Some(sequence.frames[i as int].color),
{
    lemma_sample(sequence, 0, i);
}

/// Every frame's alpha data reads back, byte for byte, from the alpha track; a
/// frame without any has an empty sample there.
pub proof fn law_alpha_reads_back(sequence: SequenceView, i: nat)
    requires
        sequence.file().len() <= u32::MAX,
        sequence.has_alpha(),
        i < sequence.frames.len(),
    ensures
        reader::sample(sequence.file(), 1, i) == Some(
            match sequence.frames[i as int].alpha {
                Some(alpha) => alpha,
                None => Seq::empty(),
            },
        ),
{
    lemma_sample(sequence, 1, i);
}

/// Each track has as many samples as there are frames, and there is an alpha
/// track exactly where frames have alpha data and it is configured.
pub proof fn law_tracks(sequence: SequenceView)
    requires
        sequence.file().len() <= u32::MAX,
    ensures
        reader::sample_count(sequence.file(), 0) == Some(sequence.frames.len() as int),
        reader::track(sequence.file(), 1) is Some <==> sequence.has_alpha(),
        sequence.has_alpha() ==> reader::sample_count(sequence.file(), 1) == Some(
            sequence.frames.len() as int,
        ),
{
    navigation::lemma_file(sequence);
    navigation::lemma_track_tables(sequence, 0);
    lemma_stsz_fields(sequence.color_track().samples);
    assert(navigation::has_track(sequence, 0));
    if sequence.has_alpha() {
        assert(navigation::has_track(sequence, 1));
        navigation::lemma_track_tables(sequence, 1);
        lemma_stsz_fields(sequence.alpha_track().samples);
    }
}

/// All samples of a track lie in one chunk.
pub proof fn law_one_chunk(sequence: SequenceView, k: nat)
    requires
        sequence.file().len() <= u32::MAX,
        navigation::has_track(sequence, k),
    ensures
        reader::samples_per_chunk(sequence.file(), k) is Some,
        reader::samples_per_chunk(sequence.file(), k) == reader::sample_count(sequence.file(), k),
        reader::chunk_count(sequence.file(), k) == Some(1int),
{
    let samples = navigation::nth_track(sequence, k).samples;
    navigation::lemma_track_tables(sequence, k);
    lemma_few_frames(sequence);
    lemma_stsz_fields(samples);
    lemma_stsc_fields(samples.len());
    lemma_stco_fields(navigation::nth_start(sequence, k) as u32);
}

/// The media is the frames' data and nothing else: no byte of it depends on
/// what offsets were filled in, or on any byte that a payload happens to hold.
pub proof fn law_media_is_verbatim(sequence: SequenceView)
    requires
        sequence.file().len() <= u32::MAX,
    ensures
        reader::nth_box(sequence.file(), MDAT, 0) == Some(
            bytes::concat(sequence::color_samples(sequence.frames)) + (if sequence.has_alpha() {
                bytes::concat(sequence::alpha_samples(sequence.frames))
            } else {
                Seq::empty()
            }),
        ),
{
    navigation::lemma_file(sequence);
    navigation::lemma_payload(
        MDAT,
        bytes::concat(sequence.color_samples()) + bytes::concat(sequence.alpha_samples()),
    );
}

} // verus!
