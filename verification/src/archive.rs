//! Archive indexing over a flat in-memory buffer.
//!
//! The buffer holds a sequential archive of named records: each record has a
//! 512-byte header block declaring a path (bytes 0..100, NUL-terminated) and
//! an octal payload length (bytes 124..136); the payload follows immediately
//! and is padded up to the next 512-byte boundary.  Indexing walks the blocks
//! once and yields, per record, the name with the byte range of its payload.

use vstd::prelude::*;

use crate::errors::TrackError;

verus! {

/// A named byte range within one archive buffer.
#[derive(Debug)]
pub struct EntryRange {
    /// The record's declared path, as raw bytes.
    pub name: Vec<u8>,
    /// Byte offset of the payload within the buffer.
    pub offset: u64,
    /// Declared payload length in bytes.
    pub length: u64,
}

/// The mathematical model of one index entry.
pub struct SpecEntry {
    pub name: Seq<u8>,
    pub offset: int,
    pub length: int,
}

impl View for EntryRange {
    type V = SpecEntry;

    open spec fn view(&self) -> SpecEntry {
        SpecEntry { name: self.name@, offset: self.offset as int, length: self.length as int }
    }
}

/// The models of a sequence of index entries.
pub open spec fn views_of(es: Seq<EntryRange>) -> Seq<SpecEntry> {
    es.map_values(|e: EntryRange| e@)
}

/// All 512 bytes of the block at `pos` are zero: the end-of-archive marker.
pub open spec fn zero_block(b: Seq<u8>, pos: int) -> bool {
    forall|i: int| pos <= i < pos + 512 ==> b[i] == 0u8
}

/// First index in `[i, end)` holding a NUL byte, or `end` if there is none.
pub open spec fn scan_nul(b: Seq<u8>, i: int, end: int) -> int
    decreases end - i,
{
    if i >= end {
        end
    } else if b[i] == 0u8 {
        i
    } else {
        scan_nul(b, i + 1, end)
    }
}

/// The record name declared by the header at `pos`: bytes 0..100 of the
/// header, cut at the first NUL.
pub open spec fn name_of(b: Seq<u8>, pos: int) -> Seq<u8> {
    b.subrange(pos, scan_nul(b, pos, pos + 100))
}

/// The 12-byte octal length field of the header at `pos`.
pub open spec fn size_field(b: Seq<u8>, pos: int) -> Seq<u8> {
    b.subrange(pos + 124, pos + 136)
}

pub open spec fn is_octal_digit(c: u8) -> bool {
    48 <= c <= 55
}

/// First index at or after `i` in `f` holding a byte other than space.
pub open spec fn skip_spaces(f: Seq<u8>, i: int) -> int
    decreases f.len() - i,
{
    if 0 <= i < f.len() && f[i] == 32u8 {
        skip_spaces(f, i + 1)
    } else {
        i
    }
}

/// First index at or after `i` in `f` holding a byte that is no octal digit.
pub open spec fn digits_end(f: Seq<u8>, i: int) -> int
    decreases f.len() - i,
{
    if 0 <= i < f.len() && is_octal_digit(f[i]) {
        digits_end(f, i + 1)
    } else {
        i
    }
}

/// Value of the octal digits of `f` in `[i, j)`, most significant first.
pub open spec fn octal_val(f: Seq<u8>, i: int, j: int) -> int
    decreases j - i,
{
    if i >= j {
        0
    } else {
        octal_val(f, i, j - 1) * 8 + (f[j - 1] - 48)
    }
}

/// A length field is valid when, after any leading spaces, it holds at least
/// one octal digit, and nothing but NUL or space padding after the digits.
pub open spec fn octal_valid(f: Seq<u8>) -> bool {
    let s = skip_spaces(f, 0);
    let e = digits_end(f, s);
    &&& s < e
    &&& forall|k: int| e <= k < f.len() ==> f[k] == 0u8 || f[k] == 32u8
}

/// The declared value of a valid length field.
pub open spec fn octal_value(f: Seq<u8>) -> int {
    octal_val(f, skip_spaces(f, 0), digits_end(f, skip_spaces(f, 0)))
}

/// Declared payload length of the record whose header block is at `pos`.
pub open spec fn size_of(b: Seq<u8>, pos: int) -> int {
    octal_value(size_field(b, pos))
}

/// The header block at `pos` declares a record that lies within the buffer:
/// a nonempty name, a valid octal length, and a payload that fits.
pub open spec fn header_ok(b: Seq<u8>, pos: int) -> bool {
    &&& pos + 512 <= b.len()
    &&& name_of(b, pos).len() > 0
    &&& octal_valid(size_field(b, pos))
    &&& pos + 512 + size_of(b, pos) <= b.len()
}

/// Start of the block that follows the record at `pos`: header, payload and
/// padding up to the next 512-byte boundary, clamped to the buffer's end.
pub open spec fn next_record_pos(b: Seq<u8>, pos: int) -> int {
    let sz = if size_of(b, pos) >= 0 {
        size_of(b, pos)
    } else {
        0
    };
    let stepped = pos + 512 + ((sz + 511) / 512) * 512;
    if stepped > b.len() {
        b.len() as int
    } else {
        stepped
    }
}

/// The index declared by the archive records from `pos` on: `None` when a
/// header cannot be parsed, otherwise the entries in record order.  The walk
/// ends at the buffer's end or at an all-zero block.
pub open spec fn spec_entries(b: Seq<u8>, pos: int) -> Option<Seq<SpecEntry>>
    decreases b.len() - pos,
    when 0 <= pos <= b.len()
{
    if pos == b.len() {
        Some(Seq::empty())
    } else if b.len() - pos < 512 {
        None
    } else if zero_block(b, pos) {
        Some(Seq::empty())
    } else if !header_ok(b, pos) {
        None
    } else {
        let e = SpecEntry { name: name_of(b, pos), offset: pos + 512, length: size_of(b, pos) };
        match spec_entries(b, next_record_pos(b, pos)) {
            Some(rest) => Some(seq![e] + rest),
            None => None,
        }
    }
}

/// The full index of the buffer.
pub open spec fn spec_index(b: Seq<u8>) -> Option<Seq<SpecEntry>> {
    spec_entries(b, 0)
}

/// Lookup by name, last record winning on a repeated name.
pub open spec fn spec_lookup(es: Seq<SpecEntry>, name: Seq<u8>) -> Option<SpecEntry>
    decreases es.len(),
{
    if es.len() == 0 {
        None
    } else if es.last().name == name {
        Some(es.last())
    } else {
        spec_lookup(es.drop_last(), name)
    }
}

/// What reading an entry out of a buffer yields.
pub open spec fn spec_read(b: Seq<u8>, e: SpecEntry) -> Result<Seq<u8>, TrackError> {
    if 0 <= e.offset && 0 <= e.length && e.offset + e.length <= b.len() {
        Ok(b.subrange(e.offset, e.offset + e.length))
    } else {
        Err(TrackError::EntryOutOfRange)
    }
}

/// Powers of eight, the radix of the header length field.
pub open spec fn pow8(n: nat) -> int
    decreases n,
{
    if n == 0 {
        1
    } else {
        8 * pow8((n - 1) as nat)
    }
}

proof fn lemma_pow8_increases(m: nat, n: nat)
    requires
        m <= n,
    ensures
        0 < pow8(m) <= pow8(n),
    decreases n,
{
    if n > 0 {
        if m == n {
            lemma_pow8_increases((n - 1) as nat, (n - 1) as nat);
        } else {
            lemma_pow8_increases(m, (n - 1) as nat);
        }
    }
}

proof fn lemma_octal_val_bound(f: Seq<u8>, i: int, j: int)
    requires
        0 <= i <= j <= f.len(),
        forall|k: int| i <= k < j ==> is_octal_digit(#[trigger] f[k]),
    ensures
        0 <= octal_val(f, i, j) < pow8((j - i) as nat),
    decreases j - i,
{
    if i < j {
        lemma_octal_val_bound(f, i, j - 1);
    }
}

proof fn lemma_skip_spaces_at(f: Seq<u8>, i: int, s: int)
    requires
        0 <= i <= s <= f.len(),
        forall|k: int| i <= k < s ==> #[trigger] f[k] == 32u8,
        s == f.len() || f[s] != 32u8,
    ensures
        skip_spaces(f, i) == s,
    decreases s - i,
{
    if i < s {
        lemma_skip_spaces_at(f, i + 1, s);
    }
}

proof fn lemma_digits_end_at(f: Seq<u8>, i: int, e: int)
    requires
        0 <= i <= e <= f.len(),
        forall|k: int| i <= k < e ==> is_octal_digit(#[trigger] f[k]),
        e == f.len() || !is_octal_digit(f[e]),
    ensures
        digits_end(f, i) == e,
    decreases e - i,
{
    if i < e {
        lemma_digits_end_at(f, i + 1, e);
    }
}

proof fn lemma_scan_nul_at(b: Seq<u8>, i: int, s: int, end: int)
    requires
        0 <= i <= s <= end <= b.len(),
        forall|k: int| i <= k < s ==> #[trigger] b[k] != 0u8,
        s == end || b[s] == 0u8,
    ensures
        scan_nul(b, i, end) == s,
    decreases s - i,
{
    if i < s {
        lemma_scan_nul_at(b, i + 1, s, end);
    }
}

proof fn lemma_skip_spaces_range(f: Seq<u8>, i: int)
    requires
        0 <= i <= f.len(),
    ensures
        i <= skip_spaces(f, i) <= f.len(),
    decreases f.len() - i,
{
    if i < f.len() && f[i] == 32u8 {
        lemma_skip_spaces_range(f, i + 1);
    }
}

proof fn lemma_digits_end_range(f: Seq<u8>, i: int)
    requires
        0 <= i <= f.len(),
    ensures
        i <= digits_end(f, i) <= f.len(),
        forall|k: int| i <= k < digits_end(f, i) ==> is_octal_digit(#[trigger] f[k]),
    decreases f.len() - i,
{
    if i < f.len() && is_octal_digit(f[i]) {
        lemma_digits_end_range(f, i + 1);
    }
}

proof fn lemma_size_nonneg(b: Seq<u8>, pos: int)
    requires
        octal_valid(size_field(b, pos)),
    ensures
        0 <= size_of(b, pos),
{
    let f = size_field(b, pos);
    let s = skip_spaces(f, 0);
    let e = digits_end(f, s);
    lemma_skip_spaces_range(f, 0);
    lemma_digits_end_range(f, s);
    lemma_octal_val_bound(f, s, e);
}

/// An index entry is sound for a buffer: its range is the payload of the
/// archive record whose header block stands 512 bytes before it, the range
/// lies within the buffer, and reading it yields exactly those payload
/// bytes.
pub open spec fn entry_sound(b: Seq<u8>, e: SpecEntry) -> bool {
    &&& 512 <= e.offset
    &&& 0 <= e.length
    &&& e.offset + e.length <= b.len()
    &&& header_ok(b, e.offset - 512)
    &&& e.name == name_of(b, e.offset - 512)
    &&& e.length == size_of(b, e.offset - 512)
    &&& spec_read(b, e) == Ok::<Seq<u8>, TrackError>(
        b.subrange(e.offset, e.offset + e.length),
    )
}

proof fn lemma_entries_sound_from(b: Seq<u8>, pos: int, es: Seq<SpecEntry>)
    requires
        0 <= pos <= b.len(),
        spec_entries(b, pos) == Some(es),
    ensures
        forall|k: int| 0 <= k < es.len() ==> entry_sound(b, #[trigger] es[k]),
    decreases b.len() - pos,
{
    if pos == b.len() {
    } else if b.len() - pos < 512 {
    } else if zero_block(b, pos) {
    } else if !header_ok(b, pos) {
    } else {
        let nxt = next_record_pos(b, pos);
        let rest = spec_entries(b, nxt).unwrap();
        lemma_entries_sound_from(b, nxt, rest);
        let e0 = SpecEntry { name: name_of(b, pos), offset: pos + 512, length: size_of(b, pos) };
        assert(es == seq![e0] + rest);
        lemma_size_nonneg(b, pos);
        assert(entry_sound(b, e0));
        assert forall|k: int| 0 <= k < es.len() implies entry_sound(b, #[trigger] es[k]) by {
            if k == 0 {
                assert(es[0] == e0);
            } else {
                assert(es[k] == rest[k - 1]);
            }
        }
    }
}

/// Every entry of a successfully built index addresses the payload of the
/// record that declared it: the range lies within the buffer, and reading
/// the entry returns exactly the bytes that followed that record's header,
/// for every indexed name.
pub proof fn lemma_index_entries_sound(b: Seq<u8>, es: Seq<SpecEntry>)
    requires
        spec_index(b) == Some(es),
    ensures
        forall|k: int| 0 <= k < es.len() ==> entry_sound(b, #[trigger] es[k]),
{
    lemma_entries_sound_from(b, 0, es);
}

/// A looked-up entry is one of the index's entries, so whatever holds of
/// every index entry holds of it.
pub proof fn lemma_lookup_is_member(es: Seq<SpecEntry>, name: Seq<u8>, e: SpecEntry)
    requires
        spec_lookup(es, name) == Some(e),
    ensures
        exists|k: int| 0 <= k < es.len() && es[k] == e,
        e.name == name,
    decreases es.len(),
{
    if es.len() > 0 {
        if es.last().name == name {
            assert(es[es.len() - 1] == e);
        } else {
            lemma_lookup_is_member(es.drop_last(), name, e);
            let k = choose|k: int| 0 <= k < es.drop_last().len() && es.drop_last()[k] == e;
            assert(es[k] == e);
        }
    }
}

/// For every name a successfully built index holds, looking the name up and
/// reading the entry it yields returns exactly the payload bytes that the
/// archive stored under that name: the bytes that followed the header block
/// of the last record declaring it.
pub proof fn lemma_indexed_read_round_trip(b: Seq<u8>, es: Seq<SpecEntry>, name: Seq<u8>)
    requires
        spec_index(b) == Some(es),
        spec_lookup(es, name) is Some,
    ensures
        ({
            let e = spec_lookup(es, name).unwrap();
            &&& e.name == name
            &&& entry_sound(b, e)
            &&& spec_read(b, e) == Ok::<Seq<u8>, TrackError>(
                b.subrange(e.offset, e.offset + e.length),
            )
        }),
{
    let e = spec_lookup(es, name).unwrap();
    lemma_index_entries_sound(b, es);
    lemma_lookup_is_member(es, name, e);
    let k = choose|k: int| 0 <= k < es.len() && es[k] == e;
    assert(entry_sound(b, es[k]));
}

/// Building the index over one unchanged buffer yields the same entries
/// both times: the index is a function of the buffer's bytes alone, so a
/// rebuild replaces the previous index rather than merging with it.
pub proof fn lemma_index_deterministic(b: Seq<u8>, e1: Seq<SpecEntry>, e2: Seq<SpecEntry>)
    requires
        spec_index(b) == Some(e1),
        spec_index(b) == Some(e2),
    ensures
        e1 == e2,
{
}

/// Whether two byte vectors hold the same bytes.
pub fn bytes_eq(a: &Vec<u8>, b: &Vec<u8>) -> (r: bool)
    ensures
        r <==> a@ == b@,
{
    if a.len() != b.len() {
        return false;
    }
    let mut i: usize = 0;
    while i < a.len()
        invariant
            i <= a.len(),
            a@.len() == b@.len(),
            forall|k: int| 0 <= k < i ==> a@[k] == b@[k],
        decreases a.len() - i,
    {
        if a[i] != b[i] {
            return false;
        }
        i += 1;
    }
    proof {
        assert(a@ =~= b@);
    }
    true
}

/// Whether the 512-byte block at `pos` is all zero.
fn block_is_zero(buffer: &Vec<u8>, pos: usize) -> (r: bool)
    requires
        pos + 512 <= buffer@.len(),
    ensures
        r == zero_block(buffer@, pos as int),
{
    let blen: usize = buffer.len();
    let mut j: usize = 0;
    while j < 512
        invariant
            j <= 512,
            blen == buffer@.len(),
            pos + 512 <= buffer@.len(),
            forall|k: int| pos <= k < pos + j ==> buffer@[k] == 0u8,
        decreases 512 - j,
    {
        if buffer[pos + j] != 0 {
            return false;
        }
        j += 1;
    }
    true
}

/// Copies the record name out of the header at `pos`.
fn read_name(buffer: &Vec<u8>, pos: usize) -> (r: Vec<u8>)
    requires
        pos + 100 <= buffer@.len(),
    ensures
        r@ == name_of(buffer@, pos as int),
{
    let blen: usize = buffer.len();
    let mut n: usize = 0;
    while n < 100 && buffer[pos + n] != 0
        invariant
            n <= 100,
            blen == buffer@.len(),
            pos + 100 <= buffer@.len(),
            forall|k: int| pos <= k < pos + n ==> #[trigger] buffer@[k] != 0u8,
        decreases 100 - n,
    {
        n += 1;
    }
    proof {
        lemma_scan_nul_at(buffer@, pos as int, pos + n as int, pos + 100);
    }
    let mut out: Vec<u8> = Vec::new();
    let mut k: usize = 0;
    while k < n
        invariant
            k <= n,
            blen == buffer@.len(),
            pos + n <= buffer@.len(),
            out@ =~= buffer@.subrange(pos as int, pos + k as int),
        decreases n - k,
    {
        out.push(buffer[pos + k]);
        k += 1;
    }
    out
}

/// Parses the octal length field of the header at `pos`, with the value it
/// declares; `None` when the field is not a valid octal length.
fn parse_octal(buffer: &Vec<u8>, pos: usize) -> (r: Option<u64>)
    requires
        pos + 512 <= buffer@.len(),
    ensures
        r is Some <==> octal_valid(size_field(buffer@, pos as int)),
        r matches Some(v) ==> v == octal_value(size_field(buffer@, pos as int))
            && v < 68719476736u64,
{
    let ghost f = size_field(buffer@, pos as int);
    let blen: usize = buffer.len();
    let base = pos + 124;
    let mut s: usize = 0;
    while s < 12 && buffer[base + s] == 32
        invariant
            s <= 12,
            blen == buffer@.len(),
            pos + 512 <= buffer@.len(),
            base == pos + 124,
            forall|k: int| 0 <= k < s ==> #[trigger] f[k] == 32u8,
            f == size_field(buffer@, pos as int),
        decreases 12 - s,
    {
        s += 1;
    }
    proof {
        lemma_skip_spaces_at(f, 0, s as int);
    }
    let ghost sp = s as int;
    let mut e: usize = s;
    let mut val: u64 = 0;
    while e < 12 && 48 <= buffer[base + e] && buffer[base + e] <= 55
        invariant
            sp <= e <= 12,
            blen == buffer@.len(),
            pos + 512 <= buffer@.len(),
            base == pos + 124,
            sp == s as int,
            forall|k: int| sp <= k < e ==> is_octal_digit(#[trigger] f[k]),
            f == size_field(buffer@, pos as int),
            val == octal_val(f, sp, e as int),
            val < pow8((e - sp) as nat),
        decreases 12 - e,
    {
        proof {
            lemma_pow8_increases((e - sp) as nat, 11);
            reveal_with_fuel(pow8, 13);
        }
        val = val * 8 + ((buffer[base + e] - 48) as u64);
        e += 1;
    }
    proof {
        lemma_digits_end_at(f, sp, e as int);
        lemma_pow8_increases((e as int - sp) as nat, 12);
        reveal_with_fuel(pow8, 13);
    }
    if e == s {
        return None;
    }
    let mut p: usize = e;
    while p < 12
        invariant
            e <= p <= 12,
            blen == buffer@.len(),
            pos + 512 <= buffer@.len(),
            base == pos + 124,
            skip_spaces(f, 0) == sp,
            digits_end(f, sp) == e as int,
            sp < e,
            forall|k: int| e <= k < p ==> #[trigger] f[k] == 0u8 || #[trigger] f[k] == 32u8,
            f == size_field(buffer@, pos as int),
        decreases 12 - p,
    {
        let c = buffer[base + p];
        if c != 0 && c != 32 {
            proof {
                assert(f[p as int] == c);
            }
            return None;
        }
        p += 1;
    }
    Some(val)
}

/// Walks the buffer's archive records and builds the index from entry name
/// to payload byte range.  The whole build aborts on the first header that
/// cannot be parsed; no partial index is returned.
pub fn build_index(buffer: &Vec<u8>) -> (r: Result<Vec<EntryRange>, TrackError>)
    ensures
        r is Ok <==> spec_index(buffer@) is Some,
        r matches Ok(es) ==> spec_index(buffer@) == Some(views_of(es@)),
        r matches Err(e) ==> e == TrackError::MalformedArchive,
{
    let ghost b = buffer@;
    let blen: usize = buffer.len();
    let mut entries: Vec<EntryRange> = Vec::new();
    let mut pos: usize = 0;
    loop
        invariant
            pos <= blen,
            blen == b.len(),
            b == buffer@,
            match spec_entries(b, pos as int) {
                Some(tail) => spec_entries(b, 0) == Some(views_of(entries@) + tail),
                None => spec_entries(b, 0) is None,
            },
        decreases blen - pos,
    {
        if pos == blen {
            proof {
                assert(views_of(entries@) + Seq::<SpecEntry>::empty() =~= views_of(entries@));
            }
            return Ok(entries);
        }
        if blen - pos < 512 {
            return Err(TrackError::MalformedArchive);
        }
        if block_is_zero(buffer, pos) {
            proof {
                assert(views_of(entries@) + Seq::<SpecEntry>::empty() =~= views_of(entries@));
            }
            return Ok(entries);
        }
        let name = read_name(buffer, pos);
        if name.len() == 0 {
            return Err(TrackError::MalformedArchive);
        }
        let size: u64 = match parse_octal(buffer, pos) {
            None => {
                return Err(TrackError::MalformedArchive);
            },
            Some(v) => v,
        };
        let avail: u64 = (blen - (pos + 512)) as u64;
        if size > avail {
            return Err(TrackError::MalformedArchive);
        }
        let ghost e_spec = SpecEntry {
            name: name_of(b, pos as int),
            offset: pos + 512,
            length: size as int,
        };
        let ghost old_entries = entries@;
        let entry = EntryRange { name, offset: (pos + 512) as u64, length: size };
        entries.push(entry);
        proof {
            assert(header_ok(b, pos as int));
            assert(views_of(entries@) =~= views_of(old_entries) + seq![e_spec]);
        }
        let padded: u64 = ((size + 511) / 512) * 512;
        let stepped: u128 = (pos as u128) + 512 + (padded as u128);
        let ghost prev = pos as int;
        if stepped > (blen as u128) {
            pos = blen;
        } else {
            pos = stepped as usize;
        }
        proof {
            assert(pos as int == next_record_pos(b, prev));
            match spec_entries(b, pos as int) {
                Some(rest) => {
                    assert(spec_entries(b, prev) == Some(seq![e_spec] + rest));
                    assert(views_of(old_entries) + (seq![e_spec] + rest) =~= views_of(
                        entries@,
                    ) + rest);
                },
                None => {
                    assert(spec_entries(b, prev) is None);
                },
            }
        }
    }
}

/// Looks an entry up by name; the last record with the name wins.
pub fn get<'a>(name: &Vec<u8>, entries: &'a Vec<EntryRange>) -> (r: Result<
    &'a EntryRange,
    TrackError,
>)
    ensures
        r is Ok <==> spec_lookup(views_of(entries@), name@) is Some,
        r matches Ok(e) ==> spec_lookup(views_of(entries@), name@) == Some(e@),
        r matches Err(e) ==> e == TrackError::UnknownEntry,
{
    let mut i: usize = entries.len();
    proof {
        assert(views_of(entries@).take(i as int) =~= views_of(entries@));
    }
    while i > 0
        invariant
            i <= entries@.len(),
            spec_lookup(views_of(entries@), name@) == spec_lookup(
                views_of(entries@).take(i as int),
                name@,
            ),
        decreases i,
    {
        i = i - 1;
        if bytes_eq(&entries[i].name, name) {
            proof {
                assert(views_of(entries@).take(i + 1).last() == entries@[i as int]@);
                assert(views_of(entries@).take(i + 1).last().name == name@);
            }
            return Ok(&entries[i]);
        }
        proof {
            assert(views_of(entries@).take(i + 1).last().name != name@);
            assert(views_of(entries@).take(i + 1).drop_last() =~= views_of(entries@).take(
                i as int,
            ));
        }
    }
    proof {
        assert(views_of(entries@).take(0) =~= Seq::<SpecEntry>::empty());
    }
    Err(TrackError::UnknownEntry)
}

/// Copies an entry's payload bytes out of the buffer.
pub fn read(entry: &EntryRange, buffer: &Vec<u8>) -> (r: Result<Vec<u8>, TrackError>)
    ensures
        r is Ok <==> entry@.offset + entry@.length <= buffer@.len(),
        r matches Ok(bytes) ==> Ok::<Seq<u8>, TrackError>(bytes@) == spec_read(
            buffer@,
            entry@,
        ),
        r matches Err(e) ==> e == TrackError::EntryOutOfRange,
{
    let blen: usize = buffer.len();
    if entry.offset > blen as u64 || entry.length > blen as u64 - entry.offset {
        return Err(TrackError::EntryOutOfRange);
    }
    let off: usize = entry.offset as usize;
    let cnt: usize = entry.length as usize;
    let mut out: Vec<u8> = Vec::new();
    let mut i: usize = 0;
    while i < cnt
        invariant
            i <= cnt,
            blen == buffer@.len(),
            off + cnt <= blen,
            out@ =~= buffer@.subrange(off as int, off + i as int),
        decreases cnt - i,
    {
        out.push(buffer[off + i]);
        i += 1;
    }
    Ok(out)
}

} // verus!
