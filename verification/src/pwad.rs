//! Generic chunk-directory ("WAD") container reader.
//!
//! A container starts with a 12-byte header: a 4-byte identification tag,
//! a little-endian `u32` lump count and a little-endian `u32` directory
//! offset.  The directory is a run of fixed 16-byte entries, each holding a
//! lump's offset, its size and its 8-byte name.  Lump bytes are addressed by
//! `offset..offset + size` within the container's bytes; lookups match the
//! first entry whose name starts with the queried tag.

use vstd::prelude::*;
use vstd::bytes::{spec_u16_from_le_bytes, spec_u32_from_le_bytes, u16_from_le_bytes, u32_from_le_bytes};
use vstd::slice::{slice_index_get, slice_subrange};
use crate::IaError;

verus! {

/// The fixed container header: identification tag, lump count, directory offset.
#[derive(Debug)]
pub struct WadHeader {
    /// The 4-byte identification tag, kept as raw bytes.
    pub identification: Vec<u8>,
    /// Number of 16-byte entries in the lump directory.
    pub num_lumps: u32,
    /// Byte offset of the first directory entry.
    pub directory_offset: u32,
}

/// One directory entry: a named byte range within the container.
#[derive(Debug)]
pub struct LumpDirectoryEntry {
    /// Byte offset of the lump's data.
    pub offset: u32,
    /// Length of the lump's data in bytes.
    pub size: u32,
    /// The 8-byte lump name; lookups match on a prefix of it.
    pub name: Vec<u8>,
}

/// A parsed container: its header, its directory, and the container bytes
/// the directory points into.
#[derive(Debug)]
pub struct Pwad {
    pub header: WadHeader,
    pub directory: Vec<LumpDirectoryEntry>,
    /// The container's bytes; every directory entry addresses a range of them.
    pub data: Vec<u8>,
}

/// The little-endian `u32` stored at byte offset `i` of `s`.
pub open spec fn spec_le_u32_at(s: Seq<u8>, i: int) -> u32 {
    spec_u32_from_le_bytes(s.subrange(i, i + 4))
}

/// The little-endian `u16` stored at byte offset `i` of `s`.
pub open spec fn spec_le_u16_at(s: Seq<u8>, i: int) -> u16 {
    spec_u16_from_le_bytes(s.subrange(i, i + 2))
}

/// The container is long enough to hold the 12-byte header.
pub open spec fn header_fits(data: Seq<u8>) -> bool {
    data.len() >= 12
}

/// The lump count stored in the header.
pub open spec fn spec_num_lumps(data: Seq<u8>) -> u32 {
    spec_le_u32_at(data, 4)
}

/// The directory offset stored in the header.
pub open spec fn spec_dir_offset(data: Seq<u8>) -> u32 {
    spec_le_u32_at(data, 8)
}

/// The whole directory lies within the container.
pub open spec fn directory_fits(data: Seq<u8>) -> bool {
    spec_dir_offset(data) + 16 * spec_num_lumps(data) <= data.len()
}

/// Byte offset of directory entry `k`.
pub open spec fn spec_entry_base(data: Seq<u8>, k: int) -> int {
    spec_dir_offset(data) + 16 * k
}

/// The `offset` field of directory entry `k`.
pub open spec fn spec_entry_offset(data: Seq<u8>, k: int) -> u32 {
    spec_le_u32_at(data, spec_entry_base(data, k))
}

/// The `size` field of directory entry `k`.
pub open spec fn spec_entry_size(data: Seq<u8>, k: int) -> u32 {
    spec_le_u32_at(data, spec_entry_base(data, k) + 4)
}

/// The 8-byte name of directory entry `k`.
pub open spec fn spec_entry_name(data: Seq<u8>, k: int) -> Seq<u8> {
    data.subrange(spec_entry_base(data, k) + 8, spec_entry_base(data, k) + 16)
}

/// Every entry's byte range lies within the container.
pub open spec fn entries_fit(data: Seq<u8>) -> bool {
    forall|k: int|
        0 <= k < spec_num_lumps(data) ==> #[trigger] spec_entry_offset(data, k)
            + spec_entry_size(data, k) <= data.len()
}

/// A well-formed container: header present, directory in range, every
/// entry's range within the file.  `from_bytes` accepts exactly these.
pub open spec fn spec_container_ok(data: Seq<u8>) -> bool {
    &&& header_fits(data)
    &&& directory_fits(data)
    &&& entries_fit(data)
}

impl Pwad {
    /// The parsed structure agrees field-for-field with the container bytes.
    pub open spec fn wf(&self) -> bool {
        &&& spec_container_ok(self.data@)
        &&& self.header.identification@ == self.data@.subrange(0, 4)
        &&& self.header.num_lumps == spec_num_lumps(self.data@)
        &&& self.header.directory_offset == spec_dir_offset(self.data@)
        &&& self.directory@.len() == spec_num_lumps(self.data@)
        &&& forall|k: int|
            0 <= k < self.directory@.len() ==> {
                &&& (#[trigger] self.directory@[k]).offset == spec_entry_offset(self.data@, k)
                &&& self.directory@[k].size == spec_entry_size(self.data@, k)
                &&& self.directory@[k].name@ == spec_entry_name(self.data@, k)
            }
    }
}

/// The little-endian `u16` at offset `i`, read from a byte vector.
pub(crate) fn read_u16_at(data: &Vec<u8>, i: usize) -> (r: u16)
    requires
        i + 2 <= data@.len(),
    ensures
        r == spec_le_u16_at(data@, i as int),
{
    let n: usize = data.len();
    assert(i + 2 <= n);
    let s = slice_subrange(data.as_slice(), i, i + 2);
    u16_from_le_bytes(s)
}

/// The little-endian `u32` at offset `i`, read from a byte vector.
pub(crate) fn read_u32_at(data: &Vec<u8>, i: usize) -> (r: u32)
    requires
        i + 4 <= data@.len(),
    ensures
        r == spec_le_u32_at(data@, i as int),
{
    let n: usize = data.len();
    assert(i + 4 <= n);
    let s = slice_subrange(data.as_slice(), i, i + 4);
    u32_from_le_bytes(s)
}

/// Copies `data[from..to]` into a fresh vector.
pub(crate) fn copy_range(data: &Vec<u8>, from: usize, to: usize) -> (r: Vec<u8>)
    requires
        from <= to <= data@.len(),
    ensures
        r@ == data@.subrange(from as int, to as int),
{
    let mut out: Vec<u8> = Vec::new();
    let mut j: usize = from;
    while j < to
        invariant
            from <= j <= to <= data@.len(),
            out@ == data@.subrange(from as int, j as int),
        decreases to - j,
    {
        out.push(data[j]);
        assert(out@ =~= data@.subrange(from as int, j + 1));
        j += 1;
    }
    out
}

impl Pwad {
    /// Parses a container from its bytes.  Returns the parsed directory
    /// together with the bytes; fails with `Format` if the file is shorter
    /// than the header, the directory runs out of range, or any entry's
    /// byte range exceeds the file length.
    pub fn from_bytes(data: Vec<u8>) -> (r: Result<Pwad, IaError>)
        ensures
            r is Ok <==> spec_container_ok(data@),
            r is Ok ==> r.unwrap().wf() && r.unwrap().data@ == data@,
            r is Err ==> r.unwrap_err() == IaError::Format,
    {
        if data.len() < 12 {
            return Err(IaError::Format);
        }
        let num_lumps = read_u32_at(&data, 4);
        let directory_offset = read_u32_at(&data, 8);
        if (directory_offset as u64) + 16u64 * (num_lumps as u64) > data.len() as u64 {
            assert(!directory_fits(data@));
            return Err(IaError::Format);
        }
        assert(directory_fits(data@));
        let identification = copy_range(&data, 0, 4);
        let n: usize = data.len();
        let mut directory: Vec<LumpDirectoryEntry> = Vec::new();
        let mut k: usize = 0;
        while k < num_lumps as usize
            invariant
                header_fits(data@),
                directory_fits(data@),
                num_lumps == spec_num_lumps(data@),
                directory_offset == spec_dir_offset(data@),
                n == data@.len(),
                k <= num_lumps,
                directory@.len() == k,
                forall|j: int|
                    0 <= j < k ==> {
                        &&& (#[trigger] directory@[j]).offset == spec_entry_offset(data@, j)
                        &&& directory@[j].size == spec_entry_size(data@, j)
                        &&& directory@[j].name@ == spec_entry_name(data@, j)
                        &&& spec_entry_offset(data@, j) + spec_entry_size(data@, j) <= data@.len()
                    },
            decreases num_lumps - k,
        {
            assert(directory_offset + 16 * (k as int) + 16 <= n);
            let base = (directory_offset as usize) + 16 * k;
            assert(base + 16 <= data@.len());
            let offset = read_u32_at(&data, base);
            let size = read_u32_at(&data, base + 4);
            let name = copy_range(&data, base + 8, base + 16);
            if (offset as u64) + (size as u64) > data.len() as u64 {
                assert(spec_entry_offset(data@, k as int) + spec_entry_size(data@, k as int)
                    > data@.len());
                assert(!entries_fit(data@));
                return Err(IaError::Format);
            }
            directory.push(LumpDirectoryEntry { offset, size, name });
            proof {
                assert(base as int == spec_entry_base(data@, k as int));
                assert(directory@[k as int].offset == spec_entry_offset(data@, k as int));
                assert(directory@[k as int].size == spec_entry_size(data@, k as int));
                assert(directory@[k as int].name@ == spec_entry_name(data@, k as int));
            }
            k += 1;
        }
        assert forall|j: int|
            0 <= j < spec_num_lumps(data@) implies #[trigger] spec_entry_offset(data@, j)
            + spec_entry_size(data@, j) <= data@.len() by {
            assert(directory@[j].offset == spec_entry_offset(data@, j));
        }
        assert(entries_fit(data@));
        Ok(
            Pwad {
                header: WadHeader { identification, num_lumps, directory_offset },
                directory,
                data,
            },
        )
    }
}

/// The queried tag is a prefix of the 8-byte entry name.
pub open spec fn name_matches(name: Seq<u8>, tag: Seq<u8>) -> bool {
    tag.len() <= name.len() && name.subrange(0, tag.len() as int) == tag
}

/// Index of the first directory entry whose name starts with `tag`.
pub open spec fn spec_find_lump(dir: Seq<LumpDirectoryEntry>, tag: Seq<u8>) -> Option<int>
    decreases dir.len(),
{
    if dir.len() == 0 {
        None
    } else if name_matches(dir.first().name@, tag) {
        Some(0int)
    } else {
        match spec_find_lump(dir.drop_first(), tag) {
            Some(i) => Some(i + 1),
            None => None,
        }
    }
}

/// The bytes a lookup of `tag` yields on container `w`: exactly `size`
/// bytes starting at `offset` of the first matching entry.
pub open spec fn spec_read_lump(w: Pwad, tag: Seq<u8>) -> Option<Seq<u8>> {
    match spec_find_lump(w.directory@, tag) {
        Some(k) => Some(
            w.data@.subrange(
                w.directory@[k].offset as int,
                w.directory@[k].offset + w.directory@[k].size,
            ),
        ),
        None => None,
    }
}

/// If `dir[i]` matches `tag` and no earlier entry does, the search finds `i`.
proof fn lemma_find_lump_hit(dir: Seq<LumpDirectoryEntry>, tag: Seq<u8>, i: int)
    requires
        0 <= i < dir.len(),
        name_matches(dir[i].name@, tag),
        forall|j: int| 0 <= j < i ==> !name_matches((#[trigger] dir[j]).name@, tag),
    ensures
        spec_find_lump(dir, tag) == Some(i),
    decreases dir.len(),
{
    if i == 0 {
    } else {
        assert(dir.drop_first()[i - 1] == dir[i]);
        assert(forall|j: int|
            0 <= j < i - 1 ==> #[trigger] dir.drop_first()[j] == dir[j + 1]);
        lemma_find_lump_hit(dir.drop_first(), tag, i - 1);
    }
}

/// If no entry matches `tag`, the search finds nothing.
proof fn lemma_find_lump_miss(dir: Seq<LumpDirectoryEntry>, tag: Seq<u8>)
    requires
        forall|j: int| 0 <= j < dir.len() ==> !name_matches((#[trigger] dir[j]).name@, tag),
    ensures
        spec_find_lump(dir, tag) is None,
    decreases dir.len(),
{
    if dir.len() > 0 {
        assert(forall|j: int|
            0 <= j < dir.len() - 1 ==> #[trigger] dir.drop_first()[j] == dir[j + 1]);
        lemma_find_lump_miss(dir.drop_first(), tag);
    }
}

/// The first `tag.len()` bytes of `name` equal `tag`.
fn is_prefix(name: &Vec<u8>, tag: &[u8]) -> (r: bool)
    ensures
        r == name_matches(name@, tag@),
{
    if tag.len() > name.len() {
        return false;
    }
    let mut j: usize = 0;
    while j < tag.len()
        invariant
            0 <= j <= tag@.len() <= name@.len(),
            forall|i: int| 0 <= i < j ==> name@[i] == tag@[i],
        decreases tag@.len() - j,
    {
        if name[j] != *slice_index_get(tag, j) {
            assert(name@.subrange(0, tag@.len() as int)[j as int] != tag@[j as int]);
            return false;
        }
        j += 1;
    }
    assert(name@.subrange(0, tag@.len() as int) =~= tag@);
    true
}

impl Pwad {
    /// Linear scan for the first entry whose name starts with `tag`; yields
    /// that lump's bytes, exactly `size` bytes at `offset`.  Fails with
    /// `NotFound` when no entry matches.
    pub fn read_lump_by_tag(&self, tag: &[u8]) -> (r: Result<Vec<u8>, IaError>)
        requires
            self.wf(),
        ensures
            r is Ok <==> spec_read_lump(*self, tag@) is Some,
            r is Ok ==> r.unwrap()@ == spec_read_lump(*self, tag@).unwrap(),
            r is Err ==> r.unwrap_err() == IaError::NotFound,
    {
        let n = self.directory.len();
        let mut k: usize = 0;
        while k < n
            invariant
                self.wf(),
                n == self.directory@.len(),
                k <= n,
                forall|j: int|
                    0 <= j < k ==> !name_matches(
                        (#[trigger] self.directory@[j]).name@,
                        tag@,
                    ),
            decreases n - k,
        {
            if is_prefix(&self.directory[k].name, tag) {
                proof {
                    lemma_find_lump_hit(self.directory@, tag@, k as int);
                }
                let dlen: usize = self.data.len();
                let e_offset = self.directory[k].offset;
                let e_size = self.directory[k].size;
                proof {
                    assert(self.directory@[k as int].offset == spec_entry_offset(
                        self.data@,
                        k as int,
                    ));
                    assert(spec_entry_offset(self.data@, k as int) + spec_entry_size(
                        self.data@,
                        k as int,
                    ) <= self.data@.len());
                    assert(e_offset + e_size <= dlen);
                }
                let bytes = copy_range(
                    &self.data,
                    e_offset as usize,
                    (e_offset as usize) + (e_size as usize),
                );
                return Ok(bytes);
            }
            k += 1;
        }
        proof {
            lemma_find_lump_miss(self.directory@, tag@);
        }
        Err(IaError::NotFound)
    }
}

/// A lookup's result is a function of the container and the tag alone, so
/// repeated reads of the same tag are byte-identical, and a hit returns
/// exactly `size` bytes taken at `offset` of the matching entry.
pub proof fn lemma_read_lump_repeatable(w: Pwad, tag: Seq<u8>, r1: Seq<u8>, r2: Seq<u8>)
    requires
        w.wf(),
        spec_read_lump(w, tag) == Some(r1),
        spec_read_lump(w, tag) == Some(r2),
    ensures
        r1 == r2,
        ({
            let k = spec_find_lump(w.directory@, tag).unwrap();
            r1.len() == w.directory@[k].size
        }),
{
    let k = spec_find_lump(w.directory@, tag).unwrap();
    lemma_find_lump_in_range(w.directory@, tag);
}

/// A successful search yields an index inside the directory.
proof fn lemma_find_lump_in_range(dir: Seq<LumpDirectoryEntry>, tag: Seq<u8>)
    requires
        spec_find_lump(dir, tag) is Some,
    ensures
        0 <= spec_find_lump(dir, tag).unwrap() < dir.len(),
    decreases dir.len(),
{
    if dir.len() > 0 && !name_matches(dir.first().name@, tag) {
        lemma_find_lump_in_range(dir.drop_first(), tag);
    }
}

} // verus!
