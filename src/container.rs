//! The HAB container: a fixed header, a table of entry records, a table of
//! null-terminated names and a payload region, read from an in-memory source.
use vstd::prelude::*;
use vstd::utf8::{decode_utf8, encode_utf8, encode_utf8_decode_utf8, valid_utf8};

use crate::decode::{
    bytes_equal, cstr_at, cstr_end, le_u16, le_u32, lemma_cstr_end_bound, read_cstr, read_u16, read_u32,
    string_from_utf8,
};

verus! {

/// Length of the fixed header.
pub const HEADER_LEN: usize = 32;

/// Length of one record of the entry table.
pub const RECORD_LEN: usize = 16;

/// Largest source length accepted (no allocation is longer): every offset
/// computed from the source then fits in 64 bits.
pub const MAX_SOURCE_LEN: u64 = 0x7fff_ffff_ffff_ffff;

/// Errors met while reading a container or one of its entries.
#[derive(Debug, Clone, Copy, PartialEq, Eq, Structural)]
pub enum HabError {
    /// The first four bytes are not the container's signature.
    UnrecognizedFormat,
    /// The source (of the given length) ends inside the fixed header.
    MalformedInput(usize),
    /// The table declares the first number of records; the source holds only
    /// the second number of whole ones.
    TruncatedTable(usize, usize),
    /// The name of the entry with this index is not valid UTF-8.
    InvalidEncoding(usize),
    /// The index (first) names no entry of a directory of the given size (second).
    IndexOutOfRange(usize, usize),
    /// The source, whose length is the second field, ends before the payload
    /// of the entry with this index does.
    TruncatedPayload(usize, u64),
}

/// One record of the entry table.
#[derive(Debug, Clone, Copy, PartialEq, Eq, Structural)]
pub struct FileMeta {
    /// Offset of the name, from the start of the name table.
    pub name_offset: u64,
    /// Offset of the payload, from the start of the payload region.
    pub data_offset: u64,
    /// Length of the payload.
    pub data_size: u64,
}

/// An entry of the directory: its record and its decoded name.
#[derive(Debug)]
pub struct FileEntry {
    pub name: String,
    pub meta: FileMeta,
}

/// The signature that opens every container: `HAB0`.
pub open spec fn magic() -> Seq<u8> {
    seq![0x48u8, 0x41u8, 0x42u8, 0x30u8]
}

pub open spec fn has_magic(s: Seq<u8>) -> bool {
    s.len() >= 4 && s.subrange(0, 4) == magic()
}

pub open spec fn declared_count(s: Seq<u8>) -> int {
    le_u16(s, 20)
}

pub open spec fn declared_total_size(s: Seq<u8>) -> int {
    le_u32(s, 28)
}

/// Position of the record of entry `i`.
pub open spec fn record_at(i: int) -> int {
    HEADER_LEN + RECORD_LEN * i
}

/// End of the entry table, which is where the name table starts.
pub open spec fn table_end(s: Seq<u8>) -> int {
    record_at(declared_count(s))
}

/// The record stored at position `at`.
pub open spec fn meta_at(s: Seq<u8>, at: int) -> FileMeta {
    FileMeta {
        name_offset: le_u32(s, at) as u64,
        data_offset: le_u32(s, at + 4) as u64,
        data_size: le_u32(s, at + 8) as u64,
    }
}

/// Absolute position of the name of entry `i`.
pub open spec fn name_start(s: Seq<u8>, i: int) -> int {
    table_end(s) + meta_at(s, record_at(i)).name_offset
}

/// The bytes of the name of entry `i`.
pub open spec fn name_bytes(s: Seq<u8>, i: int) -> Seq<u8> {
    cstr_at(s, name_start(s, i))
}

/// Where the payload region starts: right after the last name read.
pub open spec fn payload_base(s: Seq<u8>) -> int {
    if declared_count(s) == 0 {
        table_end(s)
    } else {
        cstr_end(s, name_start(s, declared_count(s) - 1))
    }
}

/// Header and entry table are whole.
pub open spec fn structure_complete(s: Seq<u8>) -> bool {
    has_magic(s) && s.len() >= HEADER_LEN && s.len() >= table_end(s)
}

pub open spec fn names_valid(s: Seq<u8>) -> bool {
    forall|i: int| 0 <= i < declared_count(s) ==> valid_utf8(#[trigger] name_bytes(s, i))
}

/// A container that parses.
pub open spec fn valid_container(s: Seq<u8>) -> bool {
    structure_complete(s) && names_valid(s)
}

/// Entry `index` is the first whose name is not valid UTF-8.
pub open spec fn first_invalid_name(s: Seq<u8>, index: int) -> bool {
    &&& 0 <= index < declared_count(s)
    &&& !valid_utf8(name_bytes(s, index))
    &&& forall|j: int| 0 <= j < index ==> valid_utf8(#[trigger] name_bytes(s, j))
}

/// The validated directory of a container, together with its byte source.
#[derive(Debug)]
pub struct Hab {
    source: Vec<u8>,
    entries: Vec<FileEntry>,
    total_size: u32,
    data_start: u64,
}

impl Hab {
    pub closed spec fn source(&self) -> Seq<u8> {
        self.source@
    }

    pub closed spec fn entries(&self) -> Seq<FileEntry> {
        self.entries@
    }

    pub closed spec fn data_start(&self) -> int {
        self.data_start as int
    }

    pub closed spec fn total_size_field(&self) -> int {
        self.total_size as int
    }

    /// The directory is the one that parsing `s` yields.
    pub open spec fn models(&self, s: Seq<u8>) -> bool {
        &&& self.source() == s
        &&& s.len() <= MAX_SOURCE_LEN
        &&& valid_container(s)
        &&& self.entries().len() == declared_count(s)
        &&& forall|i: int|
            0 <= i < self.entries().len() ==> {
                &&& (#[trigger] self.entries()[i]).meta == meta_at(s, record_at(i))
                &&& self.entries()[i].name@ == decode_utf8(name_bytes(s, i))
            }
        &&& self.data_start() == payload_base(s)
        &&& self.total_size_field() == declared_total_size(s)
    }

    pub open spec fn wf(&self) -> bool {
        self.models(self.source())
    }

    /// Absolute position of the payload of entry `i`.
    pub open spec fn entry_start(&self, i: int) -> int {
        self.data_start() + self.entries()[i].meta.data_offset
    }

    /// Absolute position right after the payload of entry `i`.
    pub open spec fn entry_end(&self, i: int) -> int {
        self.entry_start(i) + self.entries()[i].meta.data_size
    }

    /// Parses the header, the entry table and the names of `source`.
    pub fn new(source: Vec<u8>) -> (r: Result<Hab, HabError>)
        requires
            source@.len() <= MAX_SOURCE_LEN,
        ensures
            source@.len() < 4 ==> r == Err::<Hab, HabError>(
                HabError::MalformedInput(source@.len() as usize),
            ),
            source@.len() >= 4 && !has_magic(source@) ==> r == Err::<Hab, HabError>(
                HabError::UnrecognizedFormat,
            ),
            has_magic(source@) && source@.len() < HEADER_LEN ==> r == Err::<Hab, HabError>(
                HabError::MalformedInput(source@.len() as usize),
            ),
            has_magic(source@) && HEADER_LEN <= source@.len() < table_end(source@) ==> r == Err::<
                Hab,
                HabError,
            >(
                HabError::TruncatedTable(
                    declared_count(source@) as usize,
                    ((source@.len() - HEADER_LEN) / RECORD_LEN as int) as usize,
                ),
            ),
            structure_complete(source@) ==> (r is Ok <==> names_valid(source@)),
            structure_complete(source@) && !names_valid(source@) ==> (r matches Err(
                HabError::InvalidEncoding(index),
            ) && first_invalid_name(source@, index as int)),
            r matches Ok(h) ==> h.models(source@),
    {
        let s = source.as_slice();
        if s.len() < 4 {
            return Err(HabError::MalformedInput(s.len()));
        }
        if !read_magic(s) {
            return Err(HabError::UnrecognizedFormat);
        }
        if s.len() < HEADER_LEN {
            return Err(HabError::MalformedInput(s.len()));
        }
        let count = read_u16(s, 20).unwrap() as usize;
        let total_size = read_u32(s, 28).unwrap();
        let names_base = HEADER_LEN + RECORD_LEN * count;
        if s.len() < names_base {
            return Err(HabError::TruncatedTable(count, (s.len() - HEADER_LEN) / RECORD_LEN));
        }
        let mut entries: Vec<FileEntry> = Vec::new();
        let mut pos: u64 = names_base as u64;
        let mut i: usize = 0;
        while i < count
            invariant
                s@ == source@,
                s@.len() <= MAX_SOURCE_LEN,
                structure_complete(s@),
                count == declared_count(s@),
                names_base == table_end(s@),
                0 <= i <= count,
                entries@.len() == i,
                forall|j: int|
                    0 <= j < i ==> {
                        &&& (#[trigger] entries@[j]).meta == meta_at(s@, record_at(j))
                        &&& entries@[j].name@ == decode_utf8(name_bytes(s@, j))
                    },
                forall|j: int| 0 <= j < i ==> valid_utf8(#[trigger] name_bytes(s@, j)),
                i == 0 ==> pos == names_base,
                i > 0 ==> pos == cstr_end(s@, name_start(s@, i - 1)),
            decreases count - i,
        {
            let meta = FileMeta::from_reader(s, HEADER_LEN + RECORD_LEN * i).unwrap();
            let (bytes, end) = read_cstr(s, names_base as u64 + meta.name_offset);
            let name = match string_from_utf8(bytes) {
                Some(name) => name,
                None => {
                    assert(first_invalid_name(s@, i as int));
                    return Err(HabError::InvalidEncoding(i));
                },
            };
            pos = end;
            entries.push(FileEntry { name, meta });
            i = i + 1;
        }
        Ok(Hab { source, entries, total_size, data_start: pos })
    }

    /// Number of entries in the directory.
    pub fn num_entries(&self) -> (r: usize)
        ensures
            r == self.entries().len(),
    {
        self.entries.len()
    }

    /// The advisory total size that the header declares.
    pub fn total_size(&self) -> (r: u32)
        requires
            self.wf(),
        ensures
            r == declared_total_size(self.source()),
    {
        self.total_size
    }

    /// The name of entry `index`.
    pub fn entry_name(&self, index: usize) -> (r: Result<&str, HabError>)
        ensures
            index < self.entries().len() ==> (r matches Ok(name) && name@
                == self.entries()[index as int].name@),
            index >= self.entries().len() ==> r == Err::<&str, HabError>(
                HabError::IndexOutOfRange(index, self.entries().len() as usize),
            ),
    {
        if index < self.entries.len() {
            Ok(self.entries[index].name.as_str())
        } else {
            Err(HabError::IndexOutOfRange(index, self.entries.len()))
        }
    }

    /// The index of the first entry named exactly `name`, if any.
    pub fn find_entry(&self, name: &str) -> (r: Option<usize>)
        ensures
            r matches Some(i) ==> {
                &&& i < self.entries().len()
                &&& self.entries()[i as int].name@ == name@
                &&& forall|j: int| 0 <= j < i ==> (#[trigger] self.entries()[j]).name@ != name@
            },
            r is None ==> forall|j: int|
                0 <= j < self.entries().len() ==> (#[trigger] self.entries()[j]).name@ != name@,
    {
        let wanted = name.as_bytes();
        let mut i: usize = 0;
        while i < self.entries.len()
            invariant
                0 <= i <= self.entries@.len(),
                wanted@ == encode_utf8(name@),
                forall|j: int| 0 <= j < i ==> (#[trigger] self.entries@[j]).name@ != name@,
            decreases self.entries@.len() - i,
        {
            let candidate = self.entries[i].name.as_str().as_bytes();
            if bytes_equal(candidate, wanted) {
                proof {
                    encode_utf8_decode_utf8(name@);
                    encode_utf8_decode_utf8(self.entries@[i as int].name@);
                }
                return Some(i);
            }
            i = i + 1;
        }
        None
    }
}

impl Hab {
    /// Opens entry `index` for reading. The reader borrows the source
    /// exclusively: one reader at a time per directory.
    pub fn get_file_by_index(&mut self, index: usize) -> (r: Result<HabFile<'_>, HabError>)
        requires
            old(self).wf(),
        ensures
            *final(self) == *old(self),
            index < old(self).entries().len() ==> (r matches Ok(f) && f.opened_from(
                *old(self),
                index as int,
            ) && f.wf() && f.pos() == f.start()),
            index >= old(self).entries().len() ==> r is Err && r == Err::<HabFile<'_>, HabError>(
                HabError::IndexOutOfRange(index, old(self).entries().len() as usize),
            ),
    {
        if index >= self.entries.len() {
            return Err(HabError::IndexOutOfRange(index, self.entries.len()));
        }
        let entry = &self.entries[index];
        proof {
            let s = self.source@;
            let k = declared_count(s) - 1;
            if declared_count(s) > 0 {
                lemma_cstr_end_bound(s, name_start(s, k));
            }
            assert(self.entries@[index as int].meta == meta_at(s, record_at(index as int)));
        }
        let start = self.data_start + entry.meta.data_offset;
        let end = start + entry.meta.data_size;
        Ok(HabFile { source: self.source.as_slice(), entry, index, start, end, pos: start })
    }
}

/// A bounded sequential reader over the payload of one entry.
pub struct HabFile<'a> {
    source: &'a [u8],
    entry: &'a FileEntry,
    index: usize,
    start: u64,
    end: u64,
    pos: u64,
}

impl<'a> HabFile<'a> {
    pub closed spec fn source(&self) -> Seq<u8> {
        self.source@
    }

    pub closed spec fn entry(&self) -> FileEntry {
        *self.entry
    }

    pub closed spec fn index(&self) -> int {
        self.index as int
    }

    /// Absolute position of the first payload byte.
    pub closed spec fn start(&self) -> int {
        self.start as int
    }

    /// Absolute position right after the last payload byte.
    pub closed spec fn end(&self) -> int {
        self.end as int
    }

    /// Absolute position of the next byte to read.
    pub closed spec fn pos(&self) -> int {
        self.pos as int
    }

    pub open spec fn remaining(&self) -> int {
        self.end() - self.pos()
    }

    /// The bytes handed out so far.
    pub open spec fn yielded(&self) -> Seq<u8> {
        if self.pos() == self.start() {
            Seq::empty()
        } else {
            self.source().subrange(self.start(), self.pos())
        }
    }

    pub open spec fn wf(&self) -> bool {
        &&& 0 <= self.start() <= self.pos() <= self.end()
        &&& self.end() - self.start() == self.entry().meta.data_size
        &&& self.pos() == self.start() || self.pos() <= self.source().len()
        &&& self.source().len() <= MAX_SOURCE_LEN
    }

    /// The reader covers entry `index` of directory `h`.
    pub open spec fn opened_from(&self, h: Hab, index: int) -> bool {
        &&& 0 <= index < h.entries().len()
        &&& self.source() == h.source()
        &&& self.entry() == h.entries()[index]
        &&& self.index() == index
        &&& self.start() == h.entry_start(index)
        &&& self.end() == h.entry_end(index)
    }

    /// Reading `n` more bytes stays inside the source.
    pub open spec fn can_read(&self, n: int) -> bool {
        n == 0 || self.pos() + n <= self.source().len()
    }

    /// The `n` bytes at the read position.
    pub open spec fn next_bytes(&self, n: int) -> Seq<u8> {
        if n == 0 {
            Seq::empty()
        } else {
            self.source().subrange(self.pos(), self.pos() + n)
        }
    }

    /// The same reader, moved on by `n` bytes.
    pub open spec fn advanced(&self, next: &Self, n: int) -> bool {
        &&& next.source() == self.source()
        &&& next.entry() == self.entry()
        &&& next.index() == self.index()
        &&& next.start() == self.start()
        &&& next.end() == self.end()
        &&& next.pos() == self.pos() + n
    }

    /// The name of the entry being read.
    pub fn file_name(&self) -> (r: &str)
        ensures
            r@ == self.entry().name@,
    {
        self.entry.name.as_str()
    }

    /// Number of payload bytes not yet read.
    pub fn remaining_len(&self) -> (r: u64)
        requires
            self.wf(),
        ensures
            r == self.remaining(),
    {
        self.end - self.pos
    }

    fn take(&mut self, n: u64) -> (r: Result<Vec<u8>, HabError>)
        requires
            old(self).wf(),
            n <= old(self).remaining(),
        ensures
            final(self).wf(),
            old(self).can_read(n as int) ==> (r matches Ok(v) && v@ == old(self).next_bytes(
                n as int,
            ) && old(self).advanced(&*final(self), n as int)),
            !old(self).can_read(n as int) ==> r == Err::<Vec<u8>, HabError>(
                HabError::TruncatedPayload(old(self).index() as usize, old(self).source().len() as u64),
            ) && old(self).advanced(&*final(self), 0),
            r matches Ok(v) ==> final(self).yielded() == old(self).yielded() + v@,
    {
        let mut out: Vec<u8> = Vec::new();
        if n == 0 {
            assert(self.yielded() + out@ =~= self.yielded());
            return Ok(out);
        }
        let len = self.source.len() as u64;
        if self.pos > len || len - self.pos < n {
            return Err(HabError::TruncatedPayload(self.index, len));
        }
        let from = self.pos as usize;
        let to = (self.pos + n) as usize;
        let mut i: usize = from;
        while i < to
            invariant
                from <= i <= to <= self.source@.len(),
                out@ == self.source@.subrange(from as int, i as int),
            decreases to - i,
        {
            out.push(self.source[i]);
            i = i + 1;
            assert(out@ =~= self.source@.subrange(from as int, i as int));
        }
        let ghost before = self.yielded();
        self.pos = self.pos + n;
        assert(self.yielded() =~= before + out@);
        Ok(out)
    }

    /// Number of bytes a read of up to `max` bytes asks for: none once the
    /// payload is exhausted.
    pub open spec fn requested(&self, max: int) -> int {
        if max < self.remaining() {
            max
        } else {
            self.remaining()
        }
    }

    /// Number of bytes a read of up to `max` bytes hands out when the source
    /// still holds bytes at the read position: what was asked for, cut at the
    /// end of the source.
    pub open spec fn available(&self, max: int) -> int {
        let left = self.source().len() - self.pos();
        if self.requested(max) < left {
            self.requested(max)
        } else {
            left
        }
    }

    /// Reads up to `max` bytes of the payload: `min(max, remaining)` of them,
    /// cut at the end of the source, and none once the payload is exhausted.
    /// Fails, and leaves the reader where it was, only when payload bytes are
    /// asked for and the source has none left at the read position.
    pub fn read(&mut self, max: usize) -> (r: Result<Vec<u8>, HabError>)
        requires
            old(self).wf(),
        ensures
            final(self).wf(),
            old(self).requested(max as int) == 0 ==> (r matches Ok(v) && v@.len() == 0
                && old(self).advanced(&*final(self), 0)),
            old(self).requested(max as int) > 0 && old(self).pos() < old(self).source().len() ==> (
            r matches Ok(v) && v@.len() > 0 && v@ == old(self).next_bytes(
                old(self).available(max as int),
            ) && old(self).advanced(&*final(self), old(self).available(max as int))),
            old(self).requested(max as int) > 0 && old(self).pos() >= old(self).source().len()
                ==> r == Err::<Vec<u8>, HabError>(
                HabError::TruncatedPayload(old(self).index() as usize, old(self).source().len() as u64),
            ) && old(self).advanced(&*final(self), 0),
            r matches Ok(v) ==> final(self).yielded() == old(self).yielded() + v@,
    {
        let remaining = self.end - self.pos;
        let n: u64 = if (max as u64) < remaining {
            max as u64
        } else {
            remaining
        };
        if n == 0 {
            return self.take(0);
        }
        let len = self.source.len() as u64;
        if self.pos >= len {
            return Err(HabError::TruncatedPayload(self.index, len));
        }
        let left = len - self.pos;
        let k: u64 = if n < left {
            n
        } else {
            left
        };
        self.take(k)
    }

    /// Reads all the payload bytes not yet read.
    pub fn read_to_end(&mut self) -> (r: Result<Vec<u8>, HabError>)
        requires
            old(self).wf(),
        ensures
            final(self).wf(),
            old(self).can_read(old(self).remaining()) ==> (r matches Ok(v) && v@
                == old(self).next_bytes(old(self).remaining()) && old(self).advanced(
                &*final(self),
                old(self).remaining(),
            ) && final(self).remaining() == 0),
            !old(self).can_read(old(self).remaining()) ==> r == Err::<Vec<u8>, HabError>(
                HabError::TruncatedPayload(old(self).index() as usize, old(self).source().len() as u64),
            ) && old(self).advanced(&*final(self), 0),
            r matches Ok(v) ==> final(self).yielded() == old(self).yielded() + v@,
    {
        let remaining = self.end - self.pos;
        self.take(remaining)
    }
}

/// Checks the signature at the start of `s`.
fn read_magic(s: &[u8]) -> (r: bool)
    requires
        s@.len() >= 4,
    ensures
        r == has_magic(s@),
{
    let r = s[0] == 0x48 && s[1] == 0x41 && s[2] == 0x42 && s[3] == 0x30;
    if r {
        assert(s@.subrange(0, 4) =~= magic());
    } else {
        assert(s@.subrange(0, 4)[0] == s@[0]);
        assert(s@.subrange(0, 4)[1] == s@[1]);
        assert(s@.subrange(0, 4)[2] == s@[2]);
        assert(s@.subrange(0, 4)[3] == s@[3]);
    }
    r
}

impl FileMeta {
    /// Decodes the record at position `at`: three 32-bit fields and a
    /// reserved one.
    pub fn from_reader(s: &[u8], at: usize) -> (r: Option<FileMeta>)
        ensures
            r is Some <==> at + RECORD_LEN <= s@.len(),
            r matches Some(m) ==> m == meta_at(s@, at as int),
    {
        if at > s.len() || s.len() - at < RECORD_LEN {
            return None;
        }
        let name_offset = read_u32(s, at).unwrap() as u64;
        let data_offset = read_u32(s, at + 4).unwrap() as u64;
        let data_size = read_u32(s, at + 8).unwrap() as u64;
        Some(FileMeta { name_offset, data_offset, data_size })
    }
}

/// A valid container parses into a directory with as many entries as its
/// header declares, each with the name that its record points to.
pub proof fn lemma_entry_count_is_declared(h: &Hab, s: Seq<u8>)
    requires
        h.models(s),
    ensures
        h.entries().len() == declared_count(s),
        forall|i: int|
            0 <= i < declared_count(s) ==> (#[trigger] h.entries()[i]).name@ == decode_utf8(
                name_bytes(s, i),
            ),
{
}

/// A reader read to completion has handed out exactly as many bytes as its
/// entry declares: the entry's payload region of the source.
pub proof fn lemma_complete_read_has_declared_size(f: &HabFile)
    requires
        f.wf(),
        f.remaining() == 0,
    ensures
        f.yielded().len() == f.entry().meta.data_size,
        f.entry().meta.data_size > 0 ==> f.yielded() == f.source().subrange(f.start(), f.end()),
{
}

/// Two readers opened on the same entry of a directory, each read to
/// completion, hand out the same bytes.
pub proof fn lemma_reopened_entry_reads_same(h: Hab, index: int, f1: &HabFile, f2: &HabFile)
    requires
        h.wf(),
        f1.wf(),
        f2.wf(),
        f1.opened_from(h, index),
        f2.opened_from(h, index),
        f1.remaining() == 0,
        f2.remaining() == 0,
    ensures
        f1.yielded() == f2.yielded(),
{
}

} // verus!
