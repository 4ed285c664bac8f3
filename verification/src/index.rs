use vstd::arithmetic::div_mod::{
    lemma_div_denominator, lemma_fundamental_div_mod, lemma_multiply_divide_lt,
};
use vstd::prelude::*;

use crate::errors::LogError;

verus! {

/// Number of bytes of one serialized index entry.
pub const SIZE_OF_INDEX_ENTRY: usize = 16;

/// The integer a 4-byte little-endian sequence stands for.
pub open spec fn le32_val(b: Seq<u8>) -> int
    recommends
        b.len() == 4,
{
    b[0] + 0x100 * b[1] + 0x1_0000 * b[2] + 0x100_0000 * b[3]
}

/// The integer an 8-byte little-endian sequence stands for.
pub open spec fn le64_val(b: Seq<u8>) -> int
    recommends
        b.len() == 8,
{
    b[0] + 0x100 * b[1] + 0x1_0000 * b[2] + 0x100_0000 * b[3] + 0x1_0000_0000 * b[4]
        + 0x100_0000_0000 * b[5] + 0x1_0000_0000_0000 * b[6] + 0x100_0000_0000_0000 * b[7]
}

/// The 4-byte little-endian encoding of a `u32`.
pub open spec fn spec_le32_of(x: u32) -> Seq<u8> {
    seq![
        (x as int % 0x100) as u8,
        ((x as int / 0x100) % 0x100) as u8,
        ((x as int / 0x1_0000) % 0x100) as u8,
        ((x as int / 0x100_0000) % 0x100) as u8,
    ]
}

/// The 8-byte little-endian encoding of a `u64`.
pub open spec fn spec_le64_of(x: u64) -> Seq<u8> {
    seq![
        (x as int % 0x100) as u8,
        ((x as int / 0x100) % 0x100) as u8,
        ((x as int / 0x1_0000) % 0x100) as u8,
        ((x as int / 0x100_0000) % 0x100) as u8,
        ((x as int / 0x1_0000_0000) % 0x100) as u8,
        ((x as int / 0x100_0000_0000) % 0x100) as u8,
        ((x as int / 0x1_0000_0000_0000) % 0x100) as u8,
        ((x as int / 0x100_0000_0000_0000) % 0x100) as u8,
    ]
}

/// Reading back the 4-byte encoding gives the encoded value.
pub proof fn lemma_le32_round_trip(x: u32)
    ensures
        le32_val(spec_le32_of(x)) == x,
{
    let xi = x as int;
    lemma_fundamental_div_mod(xi, 0x100);
    lemma_fundamental_div_mod(xi / 0x100, 0x100);
    lemma_div_denominator(xi, 0x100, 0x100);
    lemma_fundamental_div_mod(xi / 0x1_0000, 0x100);
    lemma_div_denominator(xi, 0x1_0000, 0x100);
    lemma_multiply_divide_lt(xi, 0x100_0000, 0x100);
    vstd::arithmetic::div_mod::lemma_small_mod((xi / 0x100_0000) as nat, 0x100);
}

/// Reading back the 8-byte encoding gives the encoded value.
pub proof fn lemma_le64_round_trip(x: u64)
    ensures
        le64_val(spec_le64_of(x)) == x,
{
    let xi = x as int;
    lemma_fundamental_div_mod(xi, 0x100);
    lemma_fundamental_div_mod(xi / 0x100, 0x100);
    lemma_div_denominator(xi, 0x100, 0x100);
    lemma_fundamental_div_mod(xi / 0x1_0000, 0x100);
    lemma_div_denominator(xi, 0x1_0000, 0x100);
    lemma_fundamental_div_mod(xi / 0x100_0000, 0x100);
    lemma_div_denominator(xi, 0x100_0000, 0x100);
    lemma_fundamental_div_mod(xi / 0x1_0000_0000, 0x100);
    lemma_div_denominator(xi, 0x1_0000_0000, 0x100);
    lemma_fundamental_div_mod(xi / 0x100_0000_0000, 0x100);
    lemma_div_denominator(xi, 0x100_0000_0000, 0x100);
    lemma_fundamental_div_mod(xi / 0x1_0000_0000_0000, 0x100);
    lemma_div_denominator(xi, 0x1_0000_0000_0000, 0x100);
    lemma_multiply_divide_lt(xi, 0x100_0000_0000_0000, 0x100);
    vstd::arithmetic::div_mod::lemma_small_mod((xi / 0x100_0000_0000_0000) as nat, 0x100);
}

/// Reads the little-endian `u32` at `pos`.
pub(crate) fn read_le32(b: &[u8], pos: usize) -> (r: u32)
    requires
        pos + 4 <= b@.len(),
    ensures
        r as int == le32_val(b@.subrange(pos as int, pos as int + 4)),
{
    let _n: usize = b.len();
    let b0 = *vstd::slice::slice_index_get(b, pos) as u32;
    let b1 = *vstd::slice::slice_index_get(b, pos + 1) as u32;
    let b2 = *vstd::slice::slice_index_get(b, pos + 2) as u32;
    let b3 = *vstd::slice::slice_index_get(b, pos + 3) as u32;
    b0 + 0x100 * b1 + 0x1_0000 * b2 + 0x100_0000 * b3
}

/// Reads the little-endian `u64` at `pos`.
pub(crate) fn read_le64(b: &[u8], pos: usize) -> (r: u64)
    requires
        pos + 8 <= b@.len(),
    ensures
        r as int == le64_val(b@.subrange(pos as int, pos as int + 8)),
{
    let _n: usize = b.len();
    let b0 = *vstd::slice::slice_index_get(b, pos) as u64;
    let b1 = *vstd::slice::slice_index_get(b, pos + 1) as u64;
    let b2 = *vstd::slice::slice_index_get(b, pos + 2) as u64;
    let b3 = *vstd::slice::slice_index_get(b, pos + 3) as u64;
    let b4 = *vstd::slice::slice_index_get(b, pos + 4) as u64;
    let b5 = *vstd::slice::slice_index_get(b, pos + 5) as u64;
    let b6 = *vstd::slice::slice_index_get(b, pos + 6) as u64;
    let b7 = *vstd::slice::slice_index_get(b, pos + 7) as u64;
    b0 + 0x100 * b1 + 0x1_0000 * b2 + 0x100_0000 * b3 + 0x1_0000_0000 * b4 + 0x100_0000_0000 * b5
        + 0x1_0000_0000_0000 * b6 + 0x100_0000_0000_0000 * b7
}

/// Appends the 4-byte little-endian encoding of `x`.
pub(crate) fn write_le32(out: &mut Vec<u8>, x: u32)
    ensures
        final(out)@ == old(out)@ + spec_le32_of(x),
{
    out.push((x % 0x100) as u8);
    out.push(((x / 0x100) % 0x100) as u8);
    out.push(((x / 0x1_0000) % 0x100) as u8);
    out.push(((x / 0x100_0000) % 0x100) as u8);
    assert(out@ =~= old(out)@ + spec_le32_of(x));
}

/// Appends the 8-byte little-endian encoding of `x`.
pub(crate) fn write_le64(out: &mut Vec<u8>, x: u64)
    ensures
        final(out)@ == old(out)@ + spec_le64_of(x),
{
    out.push((x % 0x100) as u8);
    out.push(((x / 0x100) % 0x100) as u8);
    out.push(((x / 0x1_0000) % 0x100) as u8);
    out.push(((x / 0x100_0000) % 0x100) as u8);
    out.push(((x / 0x1_0000_0000) % 0x100) as u8);
    out.push(((x / 0x100_0000_0000) % 0x100) as u8);
    out.push(((x / 0x1_0000_0000_0000) % 0x100) as u8);
    out.push(((x / 0x100_0000_0000_0000) % 0x100) as u8);
    assert(out@ =~= old(out)@ + spec_le64_of(x));
}

/// One slot of a segment's index: the 1-based offset of a record within the
/// segment, the record's position in the data file, and its timestamp.
#[derive(Clone, Copy, Debug, PartialEq, Eq, Structural)]
pub struct IndexEntry {
    pub relative_offset: u32,
    pub file_position: u32,
    pub timestamp: u64,
}

/// The 16-byte serialization of an index entry.
pub open spec fn spec_entry_bytes(e: IndexEntry) -> Seq<u8> {
    spec_le32_of(e.relative_offset) + spec_le32_of(e.file_position) + spec_le64_of(e.timestamp)
}

/// The entry a 16-byte slot stands for.
pub open spec fn spec_entry_of_bytes(b: Seq<u8>) -> IndexEntry
    recommends
        b.len() == 16,
{
    IndexEntry {
        relative_offset: le32_val(b.subrange(0, 4)) as u32,
        file_position: le32_val(b.subrange(4, 8)) as u32,
        timestamp: le64_val(b.subrange(8, 16)) as u64,
    }
}

/// An all-zero slot: the sentinel for "unused".
pub open spec fn zero_entry() -> IndexEntry {
    IndexEntry { relative_offset: 0, file_position: 0, timestamp: 0 }
}

/// Parsing a serialized entry gives the entry back.
pub proof fn lemma_entry_round_trip(e: IndexEntry)
    ensures
        spec_entry_bytes(e).len() == 16,
        spec_entry_of_bytes(spec_entry_bytes(e)) == e,
{
    let b = spec_entry_bytes(e);
    assert(b.subrange(0, 4) =~= spec_le32_of(e.relative_offset));
    assert(b.subrange(4, 8) =~= spec_le32_of(e.file_position));
    assert(b.subrange(8, 16) =~= spec_le64_of(e.timestamp));
    lemma_le32_round_trip(e.relative_offset);
    lemma_le32_round_trip(e.file_position);
    lemma_le64_round_trip(e.timestamp);
}

impl IndexEntry {
    /// Serializes this entry into its 16-byte slot form.
    pub fn into_slice(&self) -> (r: Vec<u8>)
        ensures
            r@ == spec_entry_bytes(*self),
            r@.len() == 16,
    {
        let mut out: Vec<u8> = Vec::new();
        write_le32(&mut out, self.relative_offset);
        write_le32(&mut out, self.file_position);
        write_le64(&mut out, self.timestamp);
        assert(out@ =~= spec_entry_bytes(*self));
        out
    }

    /// Deserializes an entry from its 16-byte slot form.
    pub fn from_slice(b: &[u8]) -> (r: IndexEntry)
        requires
            b@.len() == 16,
        ensures
            r == spec_entry_of_bytes(b@),
    {
        let relative_offset = read_le32(b, 0);
        let file_position = read_le32(b, 4);
        let timestamp = read_le64(b, 8);
        IndexEntry { relative_offset, file_position, timestamp }
    }
}

/// What a memory-mapped buffer holds. The mapping is owned exclusively by
/// the index; nothing else writes it while it is mapped.
pub uninterp spec fn mmap_bytes(m: memmap2::MmapMut) -> Seq<u8>;

/// Declares `memmap2::MmapMut` — a mutable, possibly file-backed memory
/// mapping — so that the index can hold and pass one; its contents are
/// spoken of only through `mmap_bytes`.
#[verifier::external_type_specification]
#[verifier::external_body]
pub struct ExMmapMut(memmap2::MmapMut);

/// The bytes of `s` with `data` written at `pos`.
pub open spec fn splice_bytes(s: Seq<u8>, pos: int, data: Seq<u8>) -> Seq<u8> {
    s.subrange(0, pos) + data + s.subrange(pos + data.len(), s.len() as int)
}

/// Relies on `memmap2::MmapMut::map_anon`: a fresh anonymous mapping has the
/// requested length and is zero-filled.
#[verifier::external_body]
fn mmap_alloc(len: usize) -> (r: Result<memmap2::MmapMut, LogError>)
    ensures
        r matches Ok(m) ==> mmap_bytes(m) == Seq::new(len as nat, |i: int| 0u8),
        r matches Err(e) ==> e == LogError::MemoryMapIndex,
{
    match memmap2::MmapMut::map_anon(len) {
        Ok(m) => Ok(m),
        Err(_) => Err(LogError::MemoryMapIndex),
    }
}

/// Relies on `memmap2::MmapMut`'s `Deref` to `[u8]`: the mapping's length.
#[verifier::external_body]
fn mmap_len(m: &memmap2::MmapMut) -> (r: usize)
    ensures
        r == mmap_bytes(*m).len(),
{
    m.len()
}

/// Relies on `memmap2::MmapMut`'s `Deref` to `[u8]` and
/// `<[u8]>::to_vec`: reads `len` bytes at `pos`.
#[verifier::external_body]
fn mmap_read_at(m: &memmap2::MmapMut, pos: usize, len: usize) -> (r: Vec<u8>)
    requires
        pos + len <= mmap_bytes(*m).len(),
    ensures
        r@ == mmap_bytes(*m).subrange(pos as int, pos as int + len as int),
{
    m[pos..pos + len].to_vec()
}

/// Relies on `memmap2::MmapMut`'s `DerefMut` to `[u8]` and
/// `<[u8]>::copy_from_slice`: writes `data` at `pos`, leaving every other
/// byte unchanged.
#[verifier::external_body]
fn mmap_write_at(m: &mut memmap2::MmapMut, pos: usize, data: &[u8])
    requires
        pos + data@.len() <= mmap_bytes(*old(m)).len(),
    ensures
        mmap_bytes(*final(m)) == splice_bytes(mmap_bytes(*old(m)), pos as int, data@),
{
    m[pos..pos + data.len()].copy_from_slice(data);
}

/// Relies on `memmap2::MmapMut::flush`: synchronizes the mapping with its
/// backing storage, leaving the mapped bytes unchanged.
#[verifier::external_body]
fn mmap_flush(m: &mut memmap2::MmapMut) -> (r: Result<(), LogError>)
    ensures
        mmap_bytes(*final(m)) == mmap_bytes(*old(m)),
        r matches Err(e) ==> e == LogError::MemoryMapIndex,
{
    match m.flush() {
        Ok(()) => Ok(()),
        Err(_) => Err(LogError::MemoryMapIndex),
    }
}

/// The entries a buffer of 16-byte slots holds.
pub open spec fn entries_of(b: Seq<u8>) -> Seq<IndexEntry> {
    Seq::new(b.len() / 16, |i: int| spec_entry_of_bytes(b.subrange(16 * i, 16 * i + 16)))
}

/// The 1-based index of the first vacant slot at or after `from`, or one
/// past the end when every slot from `from` on is occupied.
pub open spec fn first_vacant(entries: Seq<IndexEntry>, from: int) -> int
    recommends
        0 <= from <= entries.len(),
    decreases entries.len() - from,
{
    if from < 0 || from >= entries.len() {
        entries.len() as int + 1
    } else if entries[from].relative_offset == 0 {
        from + 1
    } else {
        first_vacant(entries, from + 1)
    }
}

/// The position of the first vacant slot at or after `from`, or the length
/// when every slot from `from` on is occupied.
pub open spec fn first_zero(entries: Seq<IndexEntry>, from: int) -> int
    decreases entries.len() - from,
{
    if from < 0 || from >= entries.len() {
        entries.len() as int
    } else if entries[from].relative_offset == 0 {
        from
    } else {
        first_zero(entries, from + 1)
    }
}

/// Occupied slots lie before the first vacant one.
pub proof fn lemma_first_zero_lower(entries: Seq<IndexEntry>, from: int, k: int)
    requires
        0 <= from <= k < entries.len(),
        forall|j: int| from <= j <= k ==> (#[trigger] entries[j]).relative_offset != 0,
    ensures
        first_zero(entries, from) > k,
    decreases k - from,
{
    if from < k {
        lemma_first_zero_lower(entries, from + 1, k);
    } else {
        lemma_first_zero_ge(entries, from + 1);
    }
}

/// The first vacant slot never lies before the start of the scan.
pub proof fn lemma_first_zero_ge(entries: Seq<IndexEntry>, from: int)
    requires
        0 <= from <= entries.len(),
    ensures
        first_zero(entries, from) >= from,
    decreases entries.len() - from,
{
    if from < entries.len() && entries[from].relative_offset != 0 {
        lemma_first_zero_ge(entries, from + 1);
    }
}

/// The next relative offset to write: the last slot's offset when it is
/// occupied, otherwise the 1-based index of the first vacant slot.
pub open spec fn spec_current_offset(entries: Seq<IndexEntry>) -> int {
    if entries.len() > 0 && entries.last().relative_offset != 0 {
        entries.last().relative_offset as int
    } else {
        first_vacant(entries, 0)
    }
}

/// A segment's index: a fixed number of 16-byte slots in a memory-mapped
/// buffer, where a slot whose relative offset is zero is unused.
pub struct Index {
    map: memmap2::MmapMut,
}

impl View for Index {
    type V = Seq<IndexEntry>;

    closed spec fn view(&self) -> Seq<IndexEntry> {
        entries_of(mmap_bytes(self.map))
    }
}

impl Index {
    /// The raw mapped bytes.
    pub closed spec fn bytes(self) -> Seq<u8> {
        mmap_bytes(self.map)
    }

    /// The buffer is a whole, nonzero number of slots, and each relative
    /// offset fits a `u32`.
    pub closed spec fn wf(self) -> bool {
        &&& self.bytes().len() % 16 == 0
        &&& self.bytes().len() / 16 >= 1
        &&& self.bytes().len() / 16 <= 0xFFFF_FFFF
        &&& self.bytes().len() <= usize::MAX
    }

    /// Every slot of a well-formed index is one entry of its view.
    pub proof fn lemma_view_len(self)
        requires
            self.wf(),
        ensures
            self@.len() == self.bytes().len() / 16,
            1 <= self@.len() <= 0xFFFF_FFFF,
    {
    }

    /// Allocates an index of `max_entries` zeroed slots.
    pub fn create(max_entries: usize) -> (r: Result<Index, LogError>)
        requires
            1 <= max_entries <= 0xFFFF_FFFF,
            16 * max_entries <= usize::MAX,
        ensures
            r matches Ok(ix) ==> ix.wf() && ix@.len() == max_entries && ix@ == Seq::new(
                max_entries as nat,
                |i: int| zero_entry(),
            ),
            r matches Err(e) ==> e == LogError::MemoryMapIndex,
    {
        let map = mmap_alloc(16 * max_entries)?;
        let ix = Index { map };
        proof {
            let b = mmap_bytes(map);
            assert(b.len() == 16 * max_entries);
            vstd::arithmetic::div_mod::lemma_div_multiples_vanish(max_entries as int, 16);
            assert(ix@.len() == max_entries);
            assert forall|i: int| 0 <= i < max_entries implies ix@[i] == zero_entry() by {
                let slot = b.subrange(16 * i, 16 * i + 16);
                assert(forall|j: int| 0 <= j < 16 ==> slot[j] == 0);
                assert(slot.subrange(0, 4)[0] == 0);
                assert(le32_val(slot.subrange(0, 4)) == 0);
                assert(le32_val(slot.subrange(4, 8)) == 0);
                assert(le64_val(slot.subrange(8, 16)) == 0);
            }
            assert(ix@ =~= Seq::new(max_entries as nat, |i: int| zero_entry()));
        }
        Ok(ix)
    }

    /// Wraps an existing mapping, rejecting exactly those whose length is
    /// not a whole, nonzero number of slots small enough for `u32` offsets.
    pub fn from_map(map: memmap2::MmapMut) -> (r: Result<Index, LogError>)
        ensures
            r matches Ok(ix) ==> ix.wf() && ix@ == entries_of(mmap_bytes(map)),
            r matches Err(e) ==> e == LogError::CorruptIndex,
            (mmap_bytes(map).len() % 16 == 0 && 1 <= mmap_bytes(map).len() / 16 <= 0xFFFF_FFFF)
                ==> r is Ok,
    {
        let len = mmap_len(&map);
        if len % 16 != 0 || len / 16 < 1 || len / 16 > 0xFFFF_FFFF {
            return Err(LogError::CorruptIndex);
        }
        Ok(Index { map })
    }

    /// How many slots the index has.
    pub fn capacity(&self) -> (r: usize)
        requires
            self.wf(),
        ensures
            r == self@.len(),
    {
        let len = mmap_len(&self.map);
        len / 16
    }

    /// Reads the entry in slot `i`.
    pub fn entry_at(&self, i: usize) -> (r: IndexEntry)
        requires
            self.wf(),
            i < self@.len(),
        ensures
            r == self@[i as int],
    {
        proof {
            self.lemma_view_len();
            vstd::arithmetic::div_mod::lemma_fundamental_div_mod(self.bytes().len() as int, 16);
            assert(16 * i + 16 <= self.bytes().len());
        }
        let bytes = mmap_read_at(&self.map, 16 * i, 16);
        proof {
            assert(bytes@ =~= self.bytes().subrange(16 * i, 16 * i + 16));
        }
        IndexEntry::from_slice(bytes.as_slice())
    }

    /// Writes `entry` into the slot its relative offset names. Slots are
    /// 1-based: offset `k` occupies slot `k - 1`.
    pub fn push(&mut self, entry: IndexEntry)
        requires
            old(self).wf(),
            1 <= entry.relative_offset <= old(self)@.len(),
        ensures
            final(self).wf(),
            final(self)@ == old(self)@.update(entry.relative_offset - 1, entry),
    {
        let slot = (entry.relative_offset - 1) as usize;
        let bytes = entry.into_slice();
        proof {
            self.lemma_view_len();
            vstd::arithmetic::div_mod::lemma_fundamental_div_mod(self.bytes().len() as int, 16);
            assert(16 * slot + 16 <= self.bytes().len());
        }
        let ghost old_bytes = self.bytes();
        mmap_write_at(&mut self.map, 16 * slot, bytes.as_slice());
        proof {
            let new_bytes = self.bytes();
            assert(new_bytes.len() == old_bytes.len());
            lemma_entry_round_trip(entry);
            assert forall|i: int| 0 <= i < self@.len() implies self@[i] == old(self)@.update(
                entry.relative_offset - 1,
                entry,
            )[i] by {
                if i == slot {
                    assert(new_bytes.subrange(16 * i, 16 * i + 16) =~= spec_entry_bytes(entry));
                } else {
                    assert(new_bytes.subrange(16 * i, 16 * i + 16) =~= old_bytes.subrange(
                        16 * i,
                        16 * i + 16,
                    ));
                }
            }
            assert(self@ =~= old(self)@.update(entry.relative_offset - 1, entry));
        }
    }

    /// Walks the populated slots in order and returns the first entry the
    /// predicate accepts. Zeroed slots are never handed out: the walk stops
    /// at the first vacant slot.
    pub fn find<F: Fn(&IndexEntry) -> bool>(&self, f: F) -> (r: Option<IndexEntry>)
        requires
            self.wf(),
            forall|e: &IndexEntry| #[trigger] f.requires((e,)),
        ensures
            match r {
                Some(e) => exists|i: int|
                    0 <= i < first_zero(self@, 0) && (#[trigger] self@[i]) == e && f.ensures(
                        (&e,),
                        true,
                    ) && forall|j: int| 0 <= j < i ==> f.ensures((&self@[j],), false),
                None => forall|j: int|
                    0 <= j < first_zero(self@, 0) ==> f.ensures((&self@[j],), false),
            },
    {
        proof {
            self.lemma_view_len();
        }
        let capacity = self.capacity();
        let mut i: usize = 0;
        while i < capacity
            invariant
                self.wf(),
                capacity == self@.len(),
                i <= capacity,
                forall|e: &IndexEntry| #[trigger] f.requires((e,)),
                forall|j: int| 0 <= j < i ==> (#[trigger] self@[j]).relative_offset != 0,
                first_zero(self@, 0) == first_zero(self@, i as int),
                forall|j: int| 0 <= j < i ==> f.ensures((&self@[j],), false),
            decreases capacity - i,
        {
            let entry = self.entry_at(i);
            if entry.relative_offset == 0 {
                proof {
                    assert(first_zero(self@, i as int) == i);
                }
                return None;
            }
            if f(&entry) {
                proof {
                    assert(i < first_zero(self@, 0)) by {
                        lemma_first_zero_lower(self@, 0, i as int);
                    }
                }
                return Some(entry);
            }
            i = i + 1;
        }
        proof {
            assert(first_zero(self@, i as int) == self@.len());
        }
        None
    }

    /// Synchronizes the mapped slots with their backing storage.
    pub fn flush(&mut self) -> (r: Result<(), LogError>)
        requires
            old(self).wf(),
        ensures
            final(self).wf(),
            final(self)@ == old(self)@,
            final(self).bytes() == old(self).bytes(),
            r matches Err(e) ==> e == LogError::MemoryMapIndex,
    {
        mmap_flush(&mut self.map)
    }

    /// The next relative offset to write: the last slot's offset when the
    /// index is full, otherwise the 1-based index of the first vacant slot.
    pub fn get_current_offset(&self) -> (r: u32)
        requires
            self.wf(),
        ensures
            r as int == spec_current_offset(self@),
    {
        proof {
            self.lemma_view_len();
        }
        let capacity = self.capacity();
        let last = self.entry_at(capacity - 1);
        if last.relative_offset != 0 {
            return last.relative_offset;
        }
        let mut i: usize = 0;
        while i < capacity
            invariant
                self.wf(),
                capacity == self@.len(),
                self@.last().relative_offset == 0,
                i <= capacity,
                forall|j: int| 0 <= j < i ==> self@[j].relative_offset != 0,
                first_vacant(self@, 0) == first_vacant(self@, i as int),
            decreases capacity - i,
        {
            let entry = self.entry_at(i);
            if entry.relative_offset == 0 {
                return (i + 1) as u32;
            }
            i = i + 1;
        }
        proof {
            assert(self@[capacity - 1].relative_offset != 0);
            assert(false);
        }
        1
    }
}

/// After `k` entries with relative offsets `1 ..= k` have been pushed into
/// an index of capacity `c`, with `k < c`, the current offset is `k + 1`.
pub proof fn lemma_current_offset_after_pushes(entries: Seq<IndexEntry>, k: int)
    requires
        0 <= k < entries.len(),
        forall|i: int| 0 <= i < k ==> #[trigger] entries[i].relative_offset == i + 1,
        forall|i: int| k <= i < entries.len() ==> #[trigger] entries[i].relative_offset == 0,
    ensures
        spec_current_offset(entries) == k + 1,
{
    assert(entries.last().relative_offset == 0);
    lemma_first_vacant_skip(entries, 0, k);
}

/// Scanning for the first vacant slot skips every occupied slot before `k`
/// and stops at a vacant `k`.
proof fn lemma_first_vacant_skip(entries: Seq<IndexEntry>, from: int, k: int)
    requires
        0 <= from <= k < entries.len(),
        forall|i: int| from <= i < k ==> #[trigger] entries[i].relative_offset != 0,
        entries[k].relative_offset == 0,
    ensures
        first_vacant(entries, from) == k + 1,
    decreases k - from,
{
    if from < k {
        lemma_first_vacant_skip(entries, from + 1, k);
    }
}

} // verus!
