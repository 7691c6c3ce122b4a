//! The directory of a bundled document.

use crate::chunk::{range_fault, read_u16_be, read_u32_be, require_range, u16_be, u32_be};
use crate::chunk::{Chunk, ChunkModel};
use crate::error::{agrees, ParseError};
use crate::text::{decimal, push_decimal, text_from_utf8, text_of, utf8_error_text};
use std::ops::Range;
use vstd::prelude::*;
use vstd::utf8::{decode_utf8, valid_utf8};

verus! {

/// The directory: where the forms of the document are, and where its compressed tail is.
#[derive(Debug, Clone)]
pub struct Dirm {
    pub flags: u8,
    pub entry_count: u16,
    pub offsets: Vec<u32>,
    pub compressed_tail_start: usize,
    pub compressed_tail_len: usize,
}

/// A directory by its values.
#[verifier::ext_equal]
pub struct DirmModel {
    pub flags: u8,
    pub entry_count: u16,
    pub offsets: Seq<u32>,
    pub compressed_tail_start: usize,
    pub compressed_tail_len: usize,
}

impl View for Dirm {
    type V = DirmModel;

    open spec fn view(&self) -> DirmModel {
        DirmModel {
            flags: self.flags,
            entry_count: self.entry_count,
            offsets: self.offsets@,
            compressed_tail_start: self.compressed_tail_start,
            compressed_tail_len: self.compressed_tail_len,
        }
    }
}

/// What the directory says of one form.
#[derive(Debug, Clone, Copy, PartialEq, Eq)]
pub struct DirmTailEntry<'a> {
    pub offset: u32,
    pub size: u32,
    pub flags: u8,
    pub name: &'a str,
}

/// What the directory says of one form, by its values.
#[verifier::ext_equal]
pub struct TailEntryModel {
    pub offset: u32,
    pub size: u32,
    pub flags: u8,
    pub name: Seq<char>,
}

impl<'a> View for DirmTailEntry<'a> {
    type V = TailEntryModel;

    open spec fn view(&self) -> TailEntryModel {
        TailEntryModel {
            offset: self.offset,
            size: self.size,
            flags: self.flags,
            name: self.name@,
        }
    }
}

/// The entries of a list by their values.
pub open spec fn entries_view(entries: Seq<DirmTailEntry<'_>>) -> Seq<TailEntryModel> {
    Seq::new(entries.len(), |i: int| entries[i]@)
}

/// The directory in a chunk, or why there is none. Only where the chunk claims more than
/// the file holds can the table of offsets be cut short.
pub open spec fn dirm_of(bytes: Seq<u8>, chunk: ChunkModel) -> Result<DirmModel, Seq<char>> {
    let len = bytes.len() as int;
    let count = u16_be(bytes, chunk.data_start + 1);
    let table = chunk.data_start + 3;
    let tail = table + 4 * count;
    if range_fault(len, chunk.data_start as int, 3) is Some {
        Err(range_fault(len, chunk.data_start as int, 3)->0)
    } else if tail > usize::MAX {
        Err("offset overflow"@)
    } else if tail > chunk.data_end {
        Err(
            "DIRM declares "@ + decimal(count as nat)
                + " entries, but the chunk is too small for their offsets"@,
        )
    } else if tail > len {
        Err(range_fault(len, table + 4 * ((len - table) / 4), 4)->0)
    } else {
        Ok(
            DirmModel {
                flags: bytes[chunk.data_start as int],
                entry_count: count as u16,
                offsets: Seq::new(count as nat, |i: int| u32_be(bytes, table + 4 * i) as u32),
                compressed_tail_start: tail as usize,
                compressed_tail_len: (chunk.data_end - tail) as usize,
            },
        )
    }
}

/// How many bytes stand before the first zero byte from an offset on, if there is one.
pub open spec fn until_zero(raw: Seq<u8>, start: int) -> Option<nat>
    decreases raw.len() - start,
{
    if start >= raw.len() {
        None
    } else if raw[start] == 0 {
        Some(0)
    } else {
        match until_zero(raw, start + 1) {
            Some(n) => Some(n + 1),
            None => None,
        }
    }
}

/// The entry of a form, whose name stands between two offsets.
pub open spec fn tail_entry(
    offsets: Seq<u32>,
    raw: Seq<u8>,
    index: int,
    name_start: int,
    name_end: int,
) -> TailEntryModel {
    TailEntryModel {
        offset: offsets[index],
        size: (65536 * raw[3 * index] + 256 * raw[3 * index + 1] + raw[3 * index + 2]) as u32,
        flags: raw[3 * offsets.len() + index],
        name: decode_utf8(raw.subrange(name_start, name_end)),
    }
}

/// The entries from an index on, whose names start at an offset, after those already
/// found; or why they cannot be read.
pub open spec fn tail_entries_from(
    offsets: Seq<u32>,
    raw: Seq<u8>,
    index: int,
    names_start: int,
    found: Seq<TailEntryModel>,
) -> Result<Seq<TailEntryModel>, Seq<char>>
    decreases offsets.len() - index,
{
    if index >= offsets.len() {
        Ok(found)
    } else {
        match until_zero(raw, names_start) {
            None => Err(
                "DIRM tail is missing name terminator for entry "@ + decimal((index + 1) as nat),
            ),
            Some(len) => {
                let name_end = names_start + len;
                let name = raw.subrange(names_start, name_end);
                if valid_utf8(name) {
                    tail_entries_from(
                        offsets,
                        raw,
                        index + 1,
                        name_end + 1,
                        found.push(tail_entry(offsets, raw, index, names_start, name_end)),
                    )
                } else {
                    Err(
                        "DIRM tail entry "@ + decimal((index + 1) as nat)
                            + " name is not valid UTF-8: "@ + utf8_error_text(name),
                    )
                }
            },
        }
    }
}

/// The entries of a decompressed tail: a table of sizes, a table of flags, and the names,
/// each with a zero byte behind it.
pub open spec fn tail_entries(dirm: DirmModel, raw: Seq<u8>) -> Result<
    Seq<TailEntryModel>,
    Seq<char>,
> {
    if dirm.offsets.len() != dirm.entry_count {
        Err(
            "DIRM declares "@ + decimal(dirm.entry_count as nat) + " entries, but has "@ + decimal(
                dirm.offsets.len(),
            ) + " offsets"@,
        )
    } else if range_fault(raw.len() as int, 0, 4 * dirm.entry_count) is Some {
        Err(range_fault(raw.len() as int, 0, 4 * dirm.entry_count)->0)
    } else {
        tail_entries_from(dirm.offsets, raw, 0, 4 * dirm.entry_count, Seq::empty())
    }
}

impl Dirm {
    /// Where the compressed tail ends.
    #[must_use]
    pub fn compressed_tail_end(&self) -> (end: usize)
        requires
            self.compressed_tail_start + self.compressed_tail_len <= usize::MAX,
        ensures
            end == self.compressed_tail_start + self.compressed_tail_len,
    {
        self.compressed_tail_start + self.compressed_tail_len
    }

    /// The bytes of the file that the compressed tail takes.
    #[must_use]
    pub fn compressed_tail_range(&self) -> (range: Range<usize>)
        requires
            self.compressed_tail_start + self.compressed_tail_len <= usize::MAX,
        ensures
            range.start == self.compressed_tail_start,
            range.end == self.compressed_tail_start + self.compressed_tail_len,
    {
        self.compressed_tail_start..self.compressed_tail_end()
    }

    /// The compressed tail.
    pub fn compressed_tail<'a>(&self, bytes: &'a [u8]) -> (tail: Result<&'a [u8], ParseError>)
        ensures
            match range_fault(
                bytes@.len() as int,
                self.compressed_tail_start as int,
                self.compressed_tail_len as int,
            ) {
                Some(message) => tail is Err && tail->Err_0@ == message,
                None => tail is Ok && tail->Ok_0@ == bytes@.subrange(
                    self.compressed_tail_start as int,
                    self.compressed_tail_start + self.compressed_tail_len,
                ),
            },
    {
        match require_range(bytes, self.compressed_tail_start, self.compressed_tail_len) {
            Err(error) => Err(error),
            Ok(_) => {
                let range = self.compressed_tail_range();
                Ok(vstd::slice::slice_subrange(bytes, range.start, range.end))
            },
        }
    }
}

/// Reads the uncompressed part of a `DIRM` chunk.
pub fn parse_dirm(bytes: &[u8], chunk: &Chunk<'_>) -> (dirm: Result<Dirm, ParseError>)
    ensures
        agrees(dirm, dirm_of(bytes@, chunk@), |dirm: Dirm, model: DirmModel| dirm@ == model),
{
    match require_range(bytes, chunk.data_start, 3) {
        Err(error) => {
            return Err(error);
        },
        Ok(_) => {},
    }
    let flags: u8 = bytes[chunk.data_start];
    let entry_count: u16 = match read_u16_be(bytes, chunk.data_start + 1) {
        Err(error) => {
            return Err(error);
        },
        Ok(entry_count) => entry_count,
    };
    let offsets_start: usize = chunk.data_start + 3;
    let offsets_len: usize = entry_count as usize * 4;
    let compressed_tail_start: usize = match offsets_start.checked_add(offsets_len) {
        None => {
            return Err(ParseError::new("offset overflow"));
        },
        Some(start) => start,
    };
    if compressed_tail_start > chunk.data_end {
        let mut message: String = text_of("DIRM declares ");
        push_decimal(&mut message, entry_count as u64);
        message.append(" entries, but the chunk is too small for their offsets");
        return Err(ParseError(message));
    }
    let mut offsets: Vec<u32> = Vec::new();
    let mut index: usize = 0;
    let ghost table = chunk.data_start + 3;
    while index < entry_count as usize
        invariant
            index <= entry_count,
            offsets_start == table,
            table == chunk.data_start + 3,
            table <= bytes@.len(),
            compressed_tail_start == table + 4 * entry_count,
            compressed_tail_start <= chunk.data_end,
            entry_count == u16_be(bytes@, chunk.data_start + 1),
            range_fault(bytes@.len() as int, chunk.data_start as int, 3) is None,
            table + 4 * index <= bytes@.len(),
            offsets@ == Seq::new(index as nat, |i: int| u32_be(bytes@, table + 4 * i) as u32),
        decreases entry_count - index,
    {
        let offset: u32 = match read_u32_be(bytes, offsets_start + index * 4) {
            Err(error) => {
                assert((bytes@.len() - table) / 4 == index as int);
                return Err(error);
            },
            Ok(offset) => offset,
        };
        offsets.push(offset);
        index = index + 1;
        assert(offsets@ =~= Seq::new(
            index as nat,
            |i: int| u32_be(bytes@, table + 4 * i) as u32,
        ));
    }
    Ok(
        Dirm {
            flags,
            entry_count,
            offsets,
            compressed_tail_start,
            compressed_tail_len: chunk.data_end - compressed_tail_start,
        },
    )
}

proof fn lemma_until_zero(raw: Seq<u8>, start: int)
    requires
        0 <= start <= raw.len(),
    ensures
        until_zero(raw, start) matches Some(n) ==> start + n < raw.len() && raw[start + n] == 0
            && forall|i: int| start <= i < start + n ==> raw[i] != 0,
        until_zero(raw, start) is None ==> forall|i: int| start <= i < raw.len() ==> raw[i] != 0,
    decreases raw.len() - start,
{
    if start < raw.len() && raw[start] != 0 {
        lemma_until_zero(raw, start + 1);
    }
}

fn zero_position(raw: &[u8], start: usize) -> (len: Option<usize>)
    requires
        start <= raw@.len(),
    ensures
        len is Some <==> until_zero(raw@, start as int) is Some,
        len matches Some(n) ==> until_zero(raw@, start as int) == Some(n as nat) && start + n
            < raw@.len(),
{
    proof {
        lemma_until_zero(raw@, start as int);
    }
    let mut i: usize = start;
    while i < raw.len()
        invariant
            start <= i <= raw@.len(),
            forall|k: int| start <= k < i ==> raw@[k] != 0,
            until_zero(raw@, start as int) matches Some(n) ==> start + n < raw@.len() && raw@[start
                + n] == 0 && forall|k: int| start <= k < start + n ==> raw@[k] != 0,
            until_zero(raw@, start as int) is None ==> forall|k: int|
                start <= k < raw@.len() ==> raw@[k] != 0,
        decreases raw@.len() - i,
    {
        if raw[i] == 0 {
            assert(until_zero(raw@, start as int) is Some);
            assert(raw@[start + until_zero(raw@, start as int)->0] == 0);
            return Some(i - start);
        }
        i = i + 1;
    }
    None
}

/// Reads a decompressed tail.
pub fn parse_dirm_tail<'a>(dirm: &Dirm, raw: &'a [u8]) -> (entries: Result<
    Vec<DirmTailEntry<'a>>,
    ParseError,
>)
    ensures
        agrees(
            entries,
            tail_entries(dirm@, raw@),
            |entries: Vec<DirmTailEntry<'a>>, models: Seq<TailEntryModel>|
                entries_view(entries@) == models,
        ),
{
    let entry_count: usize = dirm.entry_count as usize;
    if dirm.offsets.len() != entry_count {
        let mut message: String = text_of("DIRM declares ");
        push_decimal(&mut message, entry_count as u64);
        message.append(" entries, but has ");
        push_decimal(&mut message, dirm.offsets.len() as u64);
        message.append(" offsets");
        return Err(ParseError(message));
    }
    let sizes_len: usize = entry_count * 3;
    let table_len: usize = sizes_len + entry_count;
    match require_range(raw, 0, table_len) {
        Err(error) => {
            return Err(error);
        },
        Ok(_) => {},
    }
    let mut entries: Vec<DirmTailEntry<'a>> = Vec::new();
    let mut names_start: usize = table_len;
    let mut index: usize = 0;
    assert(entries_view(entries@) =~= Seq::<TailEntryModel>::empty());
    while index < entry_count
        invariant
            index <= entry_count,
            entry_count <= u16::MAX,
            entry_count == dirm.offsets@.len(),
            sizes_len == 3 * entry_count,
            4 * entry_count <= raw@.len(),
            names_start <= raw@.len(),
            tail_entries_from(
                dirm.offsets@,
                raw@,
                index as int,
                names_start as int,
                entries_view(entries@),
            ) == tail_entries(dirm@, raw@),
        decreases entry_count - index,
    {
        let size_start: usize = index * 3;
        let size: u32 = 65536 * raw[size_start] as u32 + 256 * raw[size_start + 1] as u32
            + raw[size_start + 2] as u32;
        let flags: u8 = raw[sizes_len + index];
        let name_len: usize = match zero_position(raw, names_start) {
            None => {
                let mut message: String = text_of(
                    "DIRM tail is missing name terminator for entry ",
                );
                push_decimal(&mut message, (index + 1) as u64);
                return Err(ParseError(message));
            },
            Some(name_len) => name_len,
        };
        let name_end: usize = names_start + name_len;
        let name: &'a str = match text_from_utf8(
            vstd::slice::slice_subrange(raw, names_start, name_end),
        ) {
            Err(error) => {
                let mut message: String = text_of("DIRM tail entry ");
                push_decimal(&mut message, (index + 1) as u64);
                message.append(" name is not valid UTF-8: ");
                message.append(error.as_str());
                return Err(ParseError(message));
            },
            Ok(name) => name,
        };
        let entry = DirmTailEntry { offset: dirm.offsets[index], size, flags, name };
        assert(entry@ =~= tail_entry(
            dirm.offsets@,
            raw@,
            index as int,
            names_start as int,
            name_end as int,
        ));
        let ghost before = entries@;
        entries.push(entry);
        assert(entries_view(entries@) =~= entries_view(before).push(entry@));
        names_start = name_end + 1;
        index = index + 1;
    }
    Ok(entries)
}

} // verus!
