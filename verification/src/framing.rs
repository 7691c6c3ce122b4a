//! That chunks, page information and directories are read as they were written.

use crate::chunk::{chunk_at, ChunkModel};
use crate::dirm::{
    dirm_of, tail_entries, tail_entries_from, tail_entry, until_zero, DirmModel, TailEntryModel,
};
use crate::info::{info_at, orientation};
use crate::text::utf8;
use vstd::prelude::*;

verus! {

/// A chunk is read as it was written: with its tag, the number of its bytes with the high byte
/// first, and the bytes; the next chunk starts at an even distance from it.
pub proof fn lemma_chunk_read_back(bytes: Seq<u8>, start: int, tag: Seq<char>, size: int)
    requires
        0 <= start,
        0 <= size <= 0xffff_ffff,
        start + 8 + size + size % 2 <= bytes.len() <= usize::MAX,
        bytes.subrange(start, start + 4) == utf8(tag),
        size == 16_777_216 * bytes[start + 4] + 65_536 * bytes[start + 5] + 256 * bytes[start + 6]
            + bytes[start + 7],
    ensures
        chunk_at(bytes, start) is Ok,
        ({
            let chunk = chunk_at(bytes, start)->Ok_0;
            &&& chunk.id == tag
            &&& chunk.size == size
            &&& chunk.data_start == start + 8
            &&& chunk.data_end == start + 8 + size
            &&& chunk.next_start == start + 8 + size + size % 2
            &&& (chunk.next_start - start) % 2 == 0
        }),
{
    vstd::utf8::encode_utf8_valid_utf8(tag);
    vstd::utf8::encode_utf8_decode_utf8(tag);
}

/// The information of a page is read as it was written: width and height with the high byte
/// first, the version, a byte that says nothing, the resolution with the low byte first, the
/// gamma and the orientation.
pub proof fn lemma_info_read_back(
    bytes: Seq<u8>,
    start: int,
    width: u16,
    height: u16,
    dpi: u16,
    rotation: u8,
)
    requires
        0 <= start,
        start + 10 <= bytes.len(),
        bytes[start] == width / 256,
        bytes[start + 1] == width % 256,
        bytes[start + 2] == height / 256,
        bytes[start + 3] == height % 256,
        bytes[start + 6] == dpi % 256,
        bytes[start + 7] == dpi / 256,
        bytes[start + 9] == rotation,
    ensures
        ({
            let info = info_at(bytes, start);
            &&& info.width == width
            &&& info.height == height
            &&& info.version == bytes[start + 4]
            &&& info.dpi == dpi
            &&& info.gamma_tenths == bytes[start + 8]
            &&& info.rotation == rotation
        }),
        orientation(rotation) == 1 || orientation(rotation) == 2 || orientation(rotation) == 5
            || orientation(rotation) == 6,
        rotation == 1 || rotation == 2 || rotation == 5 || rotation == 6 ==> orientation(rotation)
            == rotation,
        rotation != 2 && rotation != 5 && rotation != 6 ==> orientation(rotation) == 1,
{
}

/// The table of a directory is read as it was written: the flags, the number of forms, and the
/// offset of each of them, with the high byte first; what follows is the compressed tail.
pub proof fn lemma_directory_read_back(bytes: Seq<u8>, chunk: ChunkModel, count: int, index: int)
    requires
        0 <= index < count <= 0xffff,
        chunk.data_start + 3 + 4 * count <= chunk.data_end <= bytes.len() <= usize::MAX,
        count == 256 * bytes[chunk.data_start + 1] + bytes[chunk.data_start + 2],
    ensures
        dirm_of(bytes, chunk) is Ok,
        ({
            let dirm = dirm_of(bytes, chunk)->Ok_0;
            let at = chunk.data_start + 3 + 4 * index;
            &&& dirm.flags == bytes[chunk.data_start as int]
            &&& dirm.entry_count == count
            &&& dirm.offsets.len() == count
            &&& dirm.offsets[index] == 16_777_216 * bytes[at] + 65_536 * bytes[at + 1] + 256
                * bytes[at + 2] + bytes[at + 3]
            &&& dirm.compressed_tail_start == chunk.data_start + 3 + 4 * count
            &&& dirm.compressed_tail_start + dirm.compressed_tail_len == chunk.data_end
        }),
{
}

/// Where the names of entries stand in a decompressed tail, one behind the other, each with a
/// zero byte behind it.
pub open spec fn names_stand_at(raw: Seq<u8>, names: Seq<Seq<char>>, starts: Seq<int>) -> bool {
    &&& starts.len() == names.len() + 1
    &&& forall|i: int|
        0 <= i < names.len() ==> {
            &&& 0 <= #[trigger] starts[i]
            &&& starts[i] + utf8(names[i]).len() < raw.len()
            &&& raw.subrange(starts[i], starts[i] + utf8(names[i]).len()) == utf8(names[i])
            &&& raw[starts[i] + utf8(names[i]).len()] == 0
            &&& starts[i + 1] == starts[i] + utf8(names[i]).len() + 1
        }
}

/// Whether no name holds a zero byte.
pub open spec fn names_whole(names: Seq<Seq<char>>) -> bool {
    forall|i: int, k: int|
        0 <= i < names.len() && 0 <= k < utf8(names[i]).len() ==> #[trigger] utf8(names[i])[k] != 0
}

proof fn lemma_until_zero(raw: Seq<u8>, start: int, len: nat)
    requires
        0 <= start,
        start + len < raw.len(),
        forall|i: int| start <= i < start + len ==> #[trigger] raw[i] != 0,
        raw[start + len] == 0,
    ensures
        until_zero(raw, start) == Some(len),
    decreases len,
{
    if len > 0 {
        lemma_until_zero(raw, start + 1, (len - 1) as nat);
    }
}

proof fn lemma_entries_from(
    offsets: Seq<u32>,
    raw: Seq<u8>,
    names: Seq<Seq<char>>,
    starts: Seq<int>,
    index: int,
    found: Seq<TailEntryModel>,
)
    requires
        0 <= index <= offsets.len(),
        names.len() == offsets.len(),
        found.len() == index,
        names_stand_at(raw, names, starts),
        names_whole(names),
        forall|i: int|
            0 <= i < index ==> #[trigger] found[i] == tail_entry(
                offsets,
                raw,
                i,
                starts[i],
                starts[i] + utf8(names[i]).len(),
            ),
    ensures
        tail_entries_from(offsets, raw, index, starts[index], found) is Ok,
        ({
            let entries = tail_entries_from(offsets, raw, index, starts[index], found)->Ok_0;
            &&& entries.len() == offsets.len()
            &&& forall|i: int|
                0 <= i < offsets.len() ==> #[trigger] entries[i] == tail_entry(
                    offsets,
                    raw,
                    i,
                    starts[i],
                    starts[i] + utf8(names[i]).len(),
                )
        }),
    decreases offsets.len() - index,
{
    if index < offsets.len() {
        let name = utf8(names[index]);
        let start = starts[index];
        assert forall|i: int| start <= i < start + name.len() implies #[trigger] raw[i] != 0 by {
            assert(raw.subrange(start, start + name.len())[i - start] == name[i - start]);
            assert(utf8(names[index])[i - start] != 0);
        }
        lemma_until_zero(raw, start, name.len());
        vstd::utf8::encode_utf8_valid_utf8(names[index]);
        let next = found.push(tail_entry(offsets, raw, index, start, start + name.len()));
        lemma_entries_from(offsets, raw, names, starts, index + 1, next);
    }
}

/// The tail of a directory is read as it was written: first the sizes of all forms, in three
/// bytes each with the high byte first, then their flags, then their names in the same order.
pub proof fn lemma_tail_read_back(
    dirm: DirmModel,
    raw: Seq<u8>,
    names: Seq<Seq<char>>,
    starts: Seq<int>,
    index: int,
)
    requires
        dirm.offsets.len() == dirm.entry_count,
        names.len() == dirm.offsets.len(),
        4 * dirm.entry_count <= raw.len() <= usize::MAX,
        names_stand_at(raw, names, starts),
        names_whole(names),
        starts[0] == 4 * dirm.entry_count,
        0 <= index < names.len(),
    ensures
        tail_entries(dirm, raw) is Ok,
        ({
            let entries = tail_entries(dirm, raw)->Ok_0;
            &&& entries.len() == names.len()
            &&& entries[index].offset == dirm.offsets[index]
            &&& entries[index].size == 65_536 * raw[3 * index] + 256 * raw[3 * index + 1] + raw[3
                * index + 2]
            &&& entries[index].flags == raw[3 * dirm.entry_count + index]
            &&& entries[index].name == names[index]
        }),
{
    lemma_entries_from(dirm.offsets, raw, names, starts, 0, Seq::empty());
    vstd::utf8::encode_utf8_decode_utf8(names[index]);
    let entries = tail_entries(dirm, raw)->Ok_0;
    assert(entries[index] == tail_entry(
        dirm.offsets,
        raw,
        index,
        starts[index],
        starts[index] + utf8(names[index]).len(),
    ));
    assert(raw.subrange(starts[index], starts[index] + utf8(names[index]).len()) == utf8(
        names[index],
    ));
}

} // verus!
