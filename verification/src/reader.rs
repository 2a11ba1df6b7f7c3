//! How a reader finds its way through a file: by the sizes and types of boxes,
//! their versions, and the fields inside them.
use vstd::prelude::*;

use crate::bytes;
use crate::fourcc::{
    AUXI, AUXL, CCST, EDTS, ELST, FTYP, HDLR, IINF, ILOC, INFE, IPCO, IPMA, IPRP, MDHD, MDIA, META,
    MINF, MOOV, MVHD, PITM, STBL, STCO, STSC, STSD, STSS, STSZ, STTS, TKHD, TRAK, TREF,
};
use crate::framing;
use crate::hvcc::HvcCParameterSetView;
use crate::presentation::INDEFINITE_DURATION;

verus! {

// ─── Boxes ───────────────────────────────────────────────────────────

/// The payload of the `n`th box of type `kind` among the boxes that `s` is
/// made of, counted from zero. A box that states a size it cannot have ends
/// the search.
pub open spec fn nth_box(s: Seq<u8>, kind: u32, n: nat) -> Option<Seq<u8>>
    decreases s.len(),
{
    let size = bytes::u32_at(s, 0);
    if s.len() < 8 || size < 8 || size > s.len() {
        None
    } else if bytes::u32_at(s, 4) != kind {
        nth_box(s.skip(size), kind, n)
    } else if n > 0 {
        nth_box(s.skip(size), kind, (n - 1) as nat)
    } else {
        Some(s.subrange(8, size))
    }
}

/// The payload of the first box of type `kind` inside a box.
pub open spec fn inside(parent: Option<Seq<u8>>, kind: u32) -> Option<Seq<u8>> {
    match parent {
        Some(payload) => nth_box(payload, kind, 0),
        None => None,
    }
}

/// The types of the boxes that `s` is made of, in order. A box that states a
/// size it cannot have ends the list.
#[verifier::opaque]
pub open spec fn kinds(s: Seq<u8>) -> Seq<int>
    decreases s.len(),
{
    let size = bytes::u32_at(s, 0);
    if s.len() < 8 || size < 8 || size > s.len() {
        Seq::empty()
    } else {
        seq![bytes::u32_at(s, 4)] + kinds(s.skip(size))
    }
}

/// Whether boxes fill `s` exactly: each is as long as it states, and no byte is
/// left over.
#[verifier::opaque]
pub open spec fn is_tiled(s: Seq<u8>) -> bool
    decreases s.len(),
{
    let size = bytes::u32_at(s, 0);
    s.len() == 0 || 8 <= size <= s.len() && is_tiled(s.skip(size))
}

/// A payload without the fields that precede the boxes in it.
pub open spec fn past(payload: Option<Seq<u8>>, fields: int) -> Option<Seq<u8>> {
    match payload {
        Some(payload) => if fields <= payload.len() {
            Some(payload.skip(fields))
        } else {
            None
        },
        None => None,
    }
}

/// A search passes over one box at a time.
pub broadcast proof fn lemma_nth_box(kind: u32, payload: Seq<u8>, rest: Seq<u8>, wanted: u32, n: nat)
    requires
        8 + payload.len() <= u32::MAX,
    ensures
        #[trigger] nth_box(framing::mp4_box(kind, payload) + rest, wanted, n) == (if kind
            != wanted {
            nth_box(rest, wanted, n)
        } else if n > 0 {
            nth_box(rest, wanted, (n - 1) as nat)
        } else {
            Some(payload)
        }),
{
    broadcast use bytes::group_append;

    reveal(framing::mp4_box);
    let first = framing::mp4_box(kind, payload);
    let s = first + rest;
    let size = (8 + payload.len()) as u32;
    let nothing = Seq::<u8>::empty();
    assert(bytes::low32(8 + payload.len() as int) == size);
    assert(s =~= nothing + (bytes::be32(size) + (bytes::be32(kind) + (payload + rest))));
    bytes::lemma_u32_at(nothing, size, bytes::be32(kind) + (payload + rest));
    assert(s =~= bytes::be32(size) + (bytes::be32(kind) + (payload + rest)));
    bytes::lemma_u32_at(bytes::be32(size), kind, payload + rest);
    assert(s.skip(size as int) =~= rest);
    assert(s.subrange(8, size as int) =~= payload);
}

/// A list of types goes over one box at a time.
pub proof fn lemma_kinds(kind: u32, payload: Seq<u8>, rest: Seq<u8>)
    requires
        8 + payload.len() <= u32::MAX,
    ensures
        kinds(framing::mp4_box(kind, payload) + rest) == seq![kind as int] + kinds(rest),
        is_tiled(framing::mp4_box(kind, payload) + rest) == is_tiled(rest),
{
    broadcast use bytes::group_append;

    reveal(framing::mp4_box);
    reveal(kinds);
    reveal(is_tiled);
    let s = framing::mp4_box(kind, payload) + rest;
    let size = (8 + payload.len()) as u32;
    let nothing = Seq::<u8>::empty();
    assert(bytes::low32(8 + payload.len() as int) == size);
    assert(s =~= nothing + (bytes::be32(size) + (bytes::be32(kind) + (payload + rest))));
    bytes::lemma_u32_at(nothing, size, bytes::be32(kind) + (payload + rest));
    assert(s =~= bytes::be32(size) + (bytes::be32(kind) + (payload + rest)));
    bytes::lemma_u32_at(bytes::be32(size), kind, payload + rest);
    assert(s.skip(size as int) =~= rest);
}

/// There is no type in nothing, and nothing left over.
pub proof fn lemma_kinds_nothing()
    ensures
        kinds(Seq::empty()) == Seq::<int>::empty(),
        is_tiled(Seq::empty()),
{
    reveal(kinds);
    reveal(is_tiled);
}

/// There is no box in nothing.
pub broadcast proof fn lemma_nth_box_nothing(wanted: u32, n: nat)
    ensures
        #[trigger] nth_box(Seq::<u8>::empty(), wanted, n) is None,
{
}

/// A search for a box at the end.
pub broadcast proof fn lemma_nth_box_last(kind: u32, payload: Seq<u8>, wanted: u32, n: nat)
    requires
        8 + payload.len() <= u32::MAX,
    ensures
        #[trigger] nth_box(framing::mp4_box(kind, payload), wanted, n) == (if kind == wanted && n
            == 0 {
            Some(payload)
        } else {
            None
        }),
{
    let nothing = Seq::<u8>::empty();
    lemma_nth_box(kind, payload, nothing, wanted, n);
    assert(framing::mp4_box(kind, payload) + nothing =~= framing::mp4_box(kind, payload));
}

pub broadcast group group_reader {
    lemma_nth_box,
    lemma_nth_box_nothing,
    lemma_nth_box_last,
}

// ─── The file type ───────────────────────────────────────────────────

/// The brand that a file is foremost of.
pub open spec fn major_brand(file: Seq<u8>) -> Option<int> {
    match nth_box(file, FTYP, 0) {
        Some(ftyp) => Some(bytes::u32_at(ftyp, 0)),
        None => None,
    }
}

/// The `j`th of the brands that a file is compatible with.
pub open spec fn compatible_brand(ftyp: Seq<u8>, j: int) -> int {
    bytes::u32_at(ftyp, 8 + 4 * j)
}

/// Whether a file says that it is compatible with a brand.
pub open spec fn is_compatible(file: Seq<u8>, brand: u32) -> bool {
    match nth_box(file, FTYP, 0) {
        Some(ftyp) => exists|j: int|
            0 <= j && 12 + 4 * j <= ftyp.len() && #[trigger] compatible_brand(ftyp, j) == brand,
        None => false,
    }
}

// ─── Headers ─────────────────────────────────────────────────────────

/// A 32-bit field of a movie, track or media header. Version 0 holds times and
/// durations in 32 bits and any other in 64, so what follows them stands at
/// `narrow` or at `wide`.
pub open spec fn header_field(header: Seq<u8>, narrow: int, wide: int) -> int {
    bytes::u32_at(
        header,
        if header[0] == 0 {
            narrow
        } else {
            wide
        },
    )
}

/// The duration in a header: 32 bits in version 0, and otherwise 64.
pub open spec fn header_duration(header: Seq<u8>, narrow: int, wide: int) -> int {
    if header[0] == 0 {
        bytes::u32_at(header, narrow)
    } else {
        bytes::u64_at(header, wide)
    }
}

/// Whether a track header leaves the duration indefinite: all its bits are ones.
pub open spec fn is_indefinite(tkhd: Seq<u8>) -> bool {
    header_duration(tkhd, 20, 28) == (if tkhd[0] == 0 {
        u32::MAX as int
    } else {
        INDEFINITE_DURATION as int
    })
}

// ─── Tracks ──────────────────────────────────────────────────────────

/// The `k`th track, counted from zero.
pub open spec fn track(file: Seq<u8>, k: nat) -> Option<Seq<u8>> {
    match nth_box(file, MOOV, 0) {
        Some(movie) => nth_box(movie, TRAK, k),
        None => None,
    }
}

/// A track's sample table.
pub open spec fn sample_table(file: Seq<u8>, k: nat) -> Option<Seq<u8>> {
    inside(inside(inside(track(file, k), MDIA), MINF), STBL)
}

/// The ticks per second that a track counts in.
pub open spec fn timescale(file: Seq<u8>, k: nat) -> Option<int> {
    match inside(inside(track(file, k), MDIA), MDHD) {
        Some(mdhd) => Some(header_field(mdhd, 12, 20)),
        None => None,
    }
}

/// How long a track's samples last together.
pub open spec fn media_duration(file: Seq<u8>, k: nat) -> Option<int> {
    match inside(inside(track(file, k), MDIA), MDHD) {
        Some(mdhd) => Some(header_duration(mdhd, 16, 24)),
        None => None,
    }
}

/// The four characters that say what a track's media is.
pub open spec fn handler(file: Seq<u8>, k: nat) -> Option<int> {
    match inside(inside(track(file, k), MDIA), HDLR) {
        Some(hdlr) => Some(bytes::u32_at(hdlr, 8)),
        None => None,
    }
}

/// The identifier that no track of the movie has yet.
pub open spec fn next_track_id(file: Seq<u8>) -> Option<int> {
    match inside(nth_box(file, MOOV, 0), MVHD) {
        Some(mvhd) => Some(header_field(mvhd, 96, 108)),
        None => None,
    }
}

/// The ticks per second that the movie counts in.
pub open spec fn movie_timescale(file: Seq<u8>) -> Option<int> {
    match inside(nth_box(file, MOOV, 0), MVHD) {
        Some(mvhd) => Some(header_field(mvhd, 12, 20)),
        None => None,
    }
}

/// How long the movie is presented.
pub open spec fn movie_duration(file: Seq<u8>) -> Option<int> {
    match inside(nth_box(file, MOOV, 0), MVHD) {
        Some(mvhd) => Some(header_duration(mvhd, 16, 24)),
        None => None,
    }
}

/// A track's identifier.
pub open spec fn track_id(file: Seq<u8>, k: nat) -> Option<int> {
    match inside(track(file, k), TKHD) {
        Some(tkhd) => Some(header_field(tkhd, 12, 20)),
        None => None,
    }
}

/// The identifier of the track that a track is auxiliary to.
pub open spec fn auxiliary_to(file: Seq<u8>, k: nat) -> Option<int> {
    match inside(inside(track(file, k), TREF), AUXL) {
        Some(auxl) => Some(bytes::u32_at(auxl, 0)),
        None => None,
    }
}

/// How long a track is presented.
pub open spec fn track_duration(file: Seq<u8>, k: nat) -> Option<int> {
    match inside(track(file, k), TKHD) {
        Some(tkhd) => Some(header_duration(tkhd, 20, 28)),
        None => None,
    }
}

/// The size that a track is shown at, in 16.16 fixed point.
pub open spec fn shown_size(file: Seq<u8>, k: nat) -> Option<(int, int)> {
    match inside(track(file, k), TKHD) {
        Some(tkhd) => Some((header_field(tkhd, 76, 88), header_field(tkhd, 80, 92))),
        None => None,
    }
}

/// How often a sequence plays.
pub enum Plays {
    Times(int),
    Forever,
}

/// The duration of an edit list's segment: 32 bits in version 0, and otherwise 64.
pub open spec fn segment(elst: Seq<u8>) -> int {
    if elst[0] == 0 {
        bytes::u32_at(elst, 8)
    } else {
        bytes::u64_at(elst, 8)
    }
}

/// How often a track plays: once where there is no edit list that repeats, and
/// otherwise as often as its one segment goes into the track's duration, or forever
/// where that duration is indefinite.
pub open spec fn plays(file: Seq<u8>, k: nat) -> Option<Plays> {
    match inside(track(file, k), TKHD) {
        Some(tkhd) => match inside(inside(track(file, k), EDTS), ELST) {
            Some(elst) => if elst[3] % 2 == 0 {
                Some(Plays::Times(1))
            } else if is_indefinite(tkhd) {
                Some(Plays::Forever)
            } else if bytes::u32_at(elst, 4) != 1 || segment(elst) == 0 {
                None
            } else {
                Some(Plays::Times(header_duration(tkhd, 20, 28) / segment(elst)))
            },
            None => Some(Plays::Times(1)),
        },
        None => None,
    }
}

// ─── Samples ─────────────────────────────────────────────────────────

/// How many samples a track has.
pub open spec fn sample_count(file: Seq<u8>, k: nat) -> Option<int> {
    match inside(sample_table(file, k), STSZ) {
        Some(stsz) => Some(bytes::u32_at(stsz, 8)),
        None => None,
    }
}

/// How many samples each chunk of a track has.
pub open spec fn samples_per_chunk(file: Seq<u8>, k: nat) -> Option<int> {
    match inside(sample_table(file, k), STSC) {
        Some(stsc) => Some(bytes::u32_at(stsc, 12)),
        None => None,
    }
}

/// Where a track's first chunk is.
pub open spec fn chunk_offset(file: Seq<u8>, k: nat) -> Option<int> {
    match inside(sample_table(file, k), STCO) {
        Some(stco) => Some(bytes::u32_at(stco, 8)),
        None => None,
    }
}

/// How many chunks a track has.
pub open spec fn chunk_count(file: Seq<u8>, k: nat) -> Option<int> {
    match inside(sample_table(file, k), STCO) {
        Some(stco) => Some(bytes::u32_at(stco, 4)),
        None => None,
    }
}

/// The length of the `i`th sample: the one that all share, or where that is
/// zero, its own.
pub open spec fn size_at(stsz: Seq<u8>, i: int) -> int {
    if bytes::u32_at(stsz, 4) != 0 {
        bytes::u32_at(stsz, 4)
    } else {
        bytes::u32_at(stsz, 12 + 4 * i)
    }
}

/// The length of the first `n` samples together.
pub open spec fn sizes_before(stsz: Seq<u8>, n: nat) -> int
    decreases n,
{
    if n == 0 {
        0
    } else {
        sizes_before(stsz, (n - 1) as nat) + size_at(stsz, n - 1)
    }
}

/// The length of all samples of a track together.
pub open spec fn all_sizes(file: Seq<u8>, k: nat) -> Option<int> {
    match inside(sample_table(file, k), STSZ) {
        Some(stsz) => Some(sizes_before(stsz, bytes::u32_at(stsz, 8) as nat)),
        None => None,
    }
}

/// The `len` bytes at `offset`, where the file has them.
pub open spec fn extent(file: Seq<u8>, offset: int, len: int) -> Option<Seq<u8>> {
    if 0 <= offset && 0 <= len && offset + len <= file.len() {
        Some(file.subrange(offset, offset + len))
    } else {
        None
    }
}

/// Whether the first chunk holds the `i`th sample: it has as many samples as the
/// first entry says, where that is for the first chunk, and there is a chunk.
pub open spec fn in_first_chunk(stsc: Seq<u8>, stco: Seq<u8>, i: nat) -> bool {
    &&& bytes::u32_at(stsc, 4) >= 1
    &&& bytes::u32_at(stsc, 8) == 1
    &&& i < bytes::u32_at(stsc, 12)
    &&& bytes::u32_at(stco, 4) >= 1
}

/// The `i`th sample of a track, where the first chunk holds it: the samples of a
/// chunk lie one after the other.
pub open spec fn sample(file: Seq<u8>, k: nat, i: nat) -> Option<Seq<u8>> {
    let table = sample_table(file, k);
    match (inside(table, STSZ), inside(table, STSC), inside(table, STCO)) {
        (Some(stsz), Some(stsc), Some(stco)) => if i < bytes::u32_at(stsz, 8) && in_first_chunk(
            stsc,
            stco,
            i,
        ) {
            extent(
                file,
                bytes::u32_at(stco, 8) + sizes_before(stsz, i),
                size_at(stsz, i as int),
            )
        } else {
            None
        },
        _ => None,
    }
}

/// How many samples the run `e` of a time-to-sample table has.
pub open spec fn run_length(stts: Seq<u8>, e: int) -> int {
    bytes::u32_at(stts, 8 + 8 * e)
}

/// How long each sample of the run `e` of a time-to-sample table lasts.
pub open spec fn run_duration(stts: Seq<u8>, e: int) -> int {
    bytes::u32_at(stts, 12 + 8 * e)
}

/// The duration of the `i`th sample from the run `e` on.
pub open spec fn duration_from(stts: Seq<u8>, e: int, i: int) -> Option<int>
    decreases bytes::u32_at(stts, 4) - e,
{
    if e >= bytes::u32_at(stts, 4) {
        None
    } else if i < run_length(stts, e) {
        Some(run_duration(stts, e))
    } else {
        duration_from(stts, e + 1, i - run_length(stts, e))
    }
}

/// How long the `i`th sample of a track lasts.
pub open spec fn sample_duration(file: Seq<u8>, k: nat, i: nat) -> Option<int> {
    match inside(sample_table(file, k), STTS) {
        Some(stts) => duration_from(stts, 0, i as int),
        None => None,
    }
}

/// How long the first `n` samples of a track last together.
pub open spec fn durations_before(file: Seq<u8>, k: nat, n: nat) -> int
    decreases n,
{
    if n == 0 {
        0
    } else {
        durations_before(file, k, (n - 1) as nat) + sample_duration(file, k, (n - 1) as nat)->0
    }
}

/// The `j`th entry of a sync table.
pub open spec fn sync_at(stss: Seq<u8>, j: int) -> int {
    bytes::u32_at(stss, 8 + 4 * j)
}

/// Whether a sync table lists a sample, counted from one.
pub open spec fn lists(stss: Seq<u8>, number: nat) -> bool {
    exists|j: int| 0 <= j < bytes::u32_at(stss, 4) && #[trigger] sync_at(stss, j) == number
}

/// Whether decoding can start at the `i`th sample of a track.
pub open spec fn is_sync(file: Seq<u8>, k: nat, i: nat) -> bool {
    match inside(sample_table(file, k), STSS) {
        Some(stss) => lists(stss, i + 1),
        None => false,
    }
}

// ─── Sample entries ──────────────────────────────────────────────────

/// The four characters that name a track's coding.
pub open spec fn coding(file: Seq<u8>, k: nat) -> Option<int> {
    match inside(sample_table(file, k), STSD) {
        Some(stsd) => Some(bytes::u32_at(stsd, 12)),
        None => None,
    }
}

/// A track's sample entry of the given coding.
pub open spec fn entry(file: Seq<u8>, k: nat, kind: u32) -> Option<Seq<u8>> {
    inside(past(inside(sample_table(file, k), STSD), 8), kind)
}

/// The coded size that a track's sample entry states.
pub open spec fn entry_size(file: Seq<u8>, k: nat, kind: u32) -> Option<(int, int)> {
    match entry(file, k, kind) {
        Some(entry) => Some((bytes::u16_at(entry, 24), bytes::u16_at(entry, 26))),
        None => None,
    }
}

/// The boxes in a track's sample entry of the given coding, past its 78 bytes of fields.
pub open spec fn entry_boxes(file: Seq<u8>, k: nat, kind: u32) -> Option<Seq<u8>> {
    past(entry(file, k, kind), 78)
}

/// Whether a track claims that all its pictures are intra-coded.
pub open spec fn claims_all_intra(file: Seq<u8>, k: nat, kind: u32) -> Option<bool> {
    match inside(entry_boxes(file, k, kind), CCST) {
        Some(ccst) => Some(ccst[4] >= 0x80),
        None => None,
    }
}

/// What an auxiliary track says it carries.
pub open spec fn auxiliary_type(file: Seq<u8>, k: nat, kind: u32) -> Option<Seq<u8>> {
    past(inside(entry_boxes(file, k, kind), AUXI), 4)
}

// ─── HEVC configurations ─────────────────────────────────────────────

/// The first `n` NAL units of `s`, each preceded by its length, and what follows them.
pub open spec fn units(s: Seq<u8>, n: nat) -> Option<(Seq<Seq<u8>>, Seq<u8>)>
    decreases n,
{
    let len = bytes::u16_at(s, 0);
    if n == 0 {
        Some((Seq::empty(), s))
    } else if s.len() < 2 || s.len() < 2 + len {
        None
    } else {
        match units(s.skip(2 + len), (n - 1) as nat) {
            Some((later, rest)) => Some((seq![s.subrange(2, 2 + len)] + later, rest)),
            None => None,
        }
    }
}

/// The parameter sets of the first `n` arrays of `s`: each states a type, how
/// many units follow, and the units.
pub open spec fn sets(s: Seq<u8>, n: nat) -> Option<Seq<HvcCParameterSetView>>
    decreases n,
{
    if n == 0 {
        Some(Seq::empty())
    } else if s.len() < 3 {
        None
    } else {
        match units(s.skip(3), bytes::u16_at(s, 1) as nat) {
            Some((data, rest)) => match sets(rest, (n - 1) as nat) {
                Some(later) => Some(
                    data.map_values(
                        |data: Seq<u8>|
                            HvcCParameterSetView {
                                nal_unit_type: s[0] % 0x40,
                                array_completeness: s[0] >= 0x80,
                                data,
                            },
                    ) + later,
                ),
                None => None,
            },
            None => None,
        }
    }
}

/// The parameter sets of an HEVC configuration: a byte counts the arrays.
pub open spec fn parameter_sets(record: Seq<u8>) -> Option<Seq<HvcCParameterSetView>> {
    if record.len() < 23 {
        None
    } else {
        sets(record.skip(23), record[22] as nat)
    }
}

// ─── The still item ──────────────────────────────────────────────────

/// The boxes that describe the still item.
pub open spec fn item_boxes(file: Seq<u8>) -> Option<Seq<u8>> {
    past(nth_box(file, META, 0), 4)
}

/// The identifier of the item that a file is foremost: 16 bits in version 0, and
/// otherwise 32.
pub open spec fn primary_item(file: Seq<u8>) -> Option<int> {
    match inside(item_boxes(file), PITM) {
        Some(pitm) => Some(
            if pitm[0] == 0 {
                bytes::u16_at(pitm, 4)
            } else {
                bytes::u32_at(pitm, 4)
            },
        ),
        None => None,
    }
}

/// Whether a location box of version 0, with offsets and lengths of 32 bits and
/// no base, starts with an item that lies in one extent of this file.
pub open spec fn locates(iloc: Seq<u8>, id: int) -> bool {
    &&& iloc[0] == 0
    &&& iloc[4] == 0x44
    &&& iloc[5] / 0x10 == 0
    &&& bytes::u16_at(iloc, 6) >= 1
    &&& bytes::u16_at(iloc, 8) == id
    &&& bytes::u16_at(iloc, 10) == 0
    &&& bytes::u16_at(iloc, 12) == 1
}

/// The primary item's data.
pub open spec fn still_item(file: Seq<u8>) -> Option<Seq<u8>> {
    match (primary_item(file), inside(item_boxes(file), ILOC)) {
        (Some(id), Some(iloc)) => if locates(iloc, id) {
            extent(file, bytes::u32_at(iloc, 14), bytes::u32_at(iloc, 18))
        } else {
            None
        },
        _ => None,
    }
}

/// The four characters that name the primary item's type, where the first entry
/// is of that item.
pub open spec fn item_type(file: Seq<u8>) -> Option<int> {
    let iinf = inside(item_boxes(file), IINF);
    match (primary_item(file), iinf, inside(past(iinf, 6), INFE)) {
        (Some(id), Some(iinf), Some(infe)) => if iinf[0] == 0 && infe[0] == 2 && bytes::u16_at(
            infe,
            4,
        ) == id {
            Some(bytes::u32_at(infe, 8))
        } else {
            None
        },
        _ => None,
    }
}

/// The still item's properties.
pub open spec fn properties(file: Seq<u8>) -> Option<Seq<u8>> {
    inside(inside(item_boxes(file), IPRP), IPCO)
}

/// Whether an association box of version 0, with places of seven bits, starts
/// with the associations of an item.
pub open spec fn associates(ipma: Seq<u8>, id: int) -> bool {
    &&& ipma[0] == 0
    &&& ipma[3] % 2 == 0
    &&& bytes::u32_at(ipma, 4) >= 1
    &&& bytes::u16_at(ipma, 8) == id
}

/// The associations of the primary item with its properties, as many as are said
/// to follow.
pub open spec fn associations(file: Seq<u8>) -> Option<Seq<u8>> {
    match (primary_item(file), inside(inside(item_boxes(file), IPRP), IPMA)) {
        (Some(id), Some(ipma)) => if associates(ipma, id) {
            extent(ipma, 11, ipma[10] as int)
        } else {
            None
        },
        _ => None,
    }
}

} // verus!
