//! The side table: per function, its type, its body and the branch table that lets execution
//! jump without scanning the code.
use vstd::prelude::*;

use crate::cursor::CursorState;
use crate::error::{invalid, unsupported, Error, Unsupported};

verus! {

/// Name of the custom section holding the side table.
pub const SECTION_NAME: &'static str = "wasefire-sidetable";

// ---------------------------------------------------------------------------------------------
// Branch table entries.

/// A branch table entry: 48 bits.
#[derive(Copy, Clone, Debug)]
pub struct BranchTableEntry(pub [u8; 6]);

impl BranchTableEntry {
    /// The bytes of the entry.
    pub open spec fn bytes(&self) -> Seq<u8> {
        self.0@
    }
}

/// The fields of a branch table entry.
#[derive(Copy, Clone, Debug, PartialEq, Eq, Structural)]
pub struct BranchTableEntryView {
    /// The amount to adjust the instruction pointer by if the branch is taken (19 bits).
    pub delta_ip: i32,
    /// The amount to adjust the side-table pointer by if the branch is taken (13 bits).
    pub delta_stp: i32,
    /// The number of values that will be copied if the branch is taken (4 bits).
    pub val_cnt: u32,
    /// The number of values that will be popped if the branch is taken (12 bits).
    pub pop_cnt: u32,
}

/// Whether each field of the view fits in its bits.
pub open spec fn entry_in_range(v: BranchTableEntryView) -> bool {
    &&& -0x40000 <= v.delta_ip < 0x40000
    &&& -0x1000 <= v.delta_stp < 0x1000
    &&& v.val_cnt <= 0xf
    &&& v.pop_cnt <= 0xfff
}

pub open spec fn encode_byte(v: BranchTableEntryView, i: int) -> u8 {
    let ip = v.delta_ip as u32;
    let stp = v.delta_stp as u32;
    let pv = (v.pop_cnt << 4u32) | v.val_cnt;
    if i == 0 {
        (ip & 0xff) as u8
    } else if i == 1 {
        ((ip >> 8u32) & 0xff) as u8
    } else if i == 2 {
        (stp & 0xff) as u8
    } else if i == 3 {
        (((stp >> 8u32) & 0x1f) | (((ip >> 16u32) & 0x7) << 5u32)) as u8
    } else if i == 4 {
        (pv & 0xff) as u8
    } else {
        ((pv >> 8u32) & 0xff) as u8
    }
}

/// The bytes of the entry for a view.
pub open spec fn encode_entry(v: BranchTableEntryView) -> Seq<u8> {
    seq![
        encode_byte(v, 0),
        encode_byte(v, 1),
        encode_byte(v, 2),
        encode_byte(v, 3),
        encode_byte(v, 4),
        encode_byte(v, 5),
    ]
}

pub open spec fn decode_ip(b0: u8, b1: u8, b3: u8) -> i32 {
    let ip = (b0 as u32) | ((b1 as u32) << 8u32) | (((b3 as u32) >> 5u32) << 16u32);
    ((ip << 13u32) as i32) >> 13u32
}

pub open spec fn decode_stp(b2: u8, b3: u8) -> i32 {
    let stp = (b2 as u32) | (((b3 as u32) & 0x1f) << 8u32);
    ((stp << 19u32) as i32) >> 19u32
}

/// The view of the bytes of an entry.
pub open spec fn decode_entry(b: Seq<u8>) -> BranchTableEntryView {
    let pv = (b[4] as u32) | ((b[5] as u32) << 8u32);
    BranchTableEntryView {
        delta_ip: decode_ip(b[0], b[1], b[3]),
        delta_stp: decode_stp(b[2], b[3]),
        val_cnt: pv & 0xf,
        pop_cnt: pv >> 4u32,
    }
}

impl BranchTableEntry {
    /// Encodes the fields of an entry, failing when one of them does not fit.
    pub fn new(view: BranchTableEntryView) -> (r: Result<Self, Error>)
        ensures
            match r {
                Ok(e) => entry_in_range(view) && e.bytes() == encode_entry(view),
                Err(e) => !entry_in_range(view) && e == Error::Unsupported(Unsupported::SideTable),
            },
    {
        if !(-0x40000 <= view.delta_ip && view.delta_ip < 0x40000 && -0x1000 <= view.delta_stp
            && view.delta_stp < 0x1000 && view.val_cnt <= 0xf && view.pop_cnt <= 0xfff) {
            return Err(unsupported(Unsupported::SideTable));
        }
        let ip = view.delta_ip as u32;
        let stp = view.delta_stp as u32;
        let pv = (view.pop_cnt << 4u32) | view.val_cnt;
        let bytes: [u8; 6] = [
            (ip & 0xff) as u8,
            ((ip >> 8u32) & 0xff) as u8,
            (stp & 0xff) as u8,
            (((stp >> 8u32) & 0x1f) | (((ip >> 16u32) & 0x7) << 5u32)) as u8,
            (pv & 0xff) as u8,
            ((pv >> 8u32) & 0xff) as u8,
        ];
        let e = BranchTableEntry(bytes);
        assert(e.bytes() =~= encode_entry(view));
        Ok(e)
    }

    /// Decodes the fields of the entry.
    pub fn view(self) -> (r: BranchTableEntryView)
        ensures
            r == decode_entry(self.bytes()),
    {
        let b = self.0;
        let ip = (b[0] as u32) | ((b[1] as u32) << 8u32) | (((b[3] as u32) >> 5u32) << 16u32);
        let stp = (b[2] as u32) | (((b[3] as u32) & 0x1f) << 8u32);
        let pv = (b[4] as u32) | ((b[5] as u32) << 8u32);
        BranchTableEntryView {
            delta_ip: ((ip << 13u32) as i32) >> 13u32,
            delta_stp: ((stp << 19u32) as i32) >> 19u32,
            val_cnt: pv & 0xf,
            pop_cnt: pv >> 4u32,
        }
    }

    /// Whether this is the placeholder entry (all bits zero).
    pub fn is_invalid(self) -> (r: bool)
        ensures
            r == (self.bytes() == seq![0u8, 0u8, 0u8, 0u8, 0u8, 0u8]),
    {
        let b = self.0;
        let r = b[0] == 0 && b[1] == 0 && b[2] == 0 && b[3] == 0 && b[4] == 0 && b[5] == 0;
        proof {
            if r {
                assert(self.bytes() =~= seq![0u8, 0u8, 0u8, 0u8, 0u8, 0u8]);
            }
        }
        r
    }

    /// The placeholder entry, to be overwritten once the branch target is known.
    pub fn invalid() -> (r: Self)
        ensures
            r.bytes() == seq![0u8, 0u8, 0u8, 0u8, 0u8, 0u8],
    {
        let e = BranchTableEntry([0u8; 6]);
        assert(e.bytes() =~= seq![0u8, 0u8, 0u8, 0u8, 0u8, 0u8]);
        e
    }
}

/// Decoding the encoding of fields that fit gives them back.
pub proof fn lemma_entry_round_trip(v: BranchTableEntryView)
    requires
        entry_in_range(v),
    ensures
        decode_entry(encode_entry(v)) == v,
{
    let ip = v.delta_ip;
    let stp = v.delta_stp;
    let vc = v.val_cnt;
    let pc = v.pop_cnt;
    let e = encode_entry(v);
    assert(decode_ip(e[0], e[1], e[3]) == ip) by {
        let u = ip as u32;
        let s = stp as u32;
        assert(decode_ip(
            (u & 0xff) as u8,
            ((u >> 8u32) & 0xff) as u8,
            (((s >> 8u32) & 0x1f) | (((u >> 16u32) & 0x7) << 5u32)) as u8,
        ) == ip) by (bit_vector)
            requires
                -0x40000 <= ip < 0x40000,
                u == ip as u32,
                s == stp as u32,
        ;
    }
    assert(decode_stp(e[2], e[3]) == stp) by {
        let u = ip as u32;
        let s = stp as u32;
        assert(decode_stp(
            (s & 0xff) as u8,
            (((s >> 8u32) & 0x1f) | (((u >> 16u32) & 0x7) << 5u32)) as u8,
        ) == stp) by (bit_vector)
            requires
                -0x1000 <= stp < 0x1000,
                u == ip as u32,
                s == stp as u32,
        ;
    }
    let pv = (pc << 4u32) | vc;
    assert(((((pv & 0xff) as u8) as u32) | ((((pv >> 8u32) & 0xff) as u8) as u32) << 8u32) & 0xf
        == vc && ((((pv & 0xff) as u8) as u32) | ((((pv >> 8u32) & 0xff) as u8) as u32) << 8u32)
        >> 4u32 == pc) by (bit_vector)
        requires
            vc <= 0xf,
            pc <= 0xfff,
            pv == (pc << 4u32) | vc,
    ;
}

/// Every entry decodes to fields that fit, which encode back to the entry.
pub proof fn lemma_entry_decode_encode(b: Seq<u8>)
    requires
        b.len() == 6,
    ensures
        entry_in_range(decode_entry(b)),
        encode_entry(decode_entry(b)) == b,
{
    let v = decode_entry(b);
    let (b0, b1, b2, b3, b4, b5) = (b[0], b[1], b[2], b[3], b[4], b[5]);
    assert(-0x40000 <= decode_ip(b0, b1, b3) < 0x40000) by (bit_vector);
    assert(-0x1000 <= decode_stp(b2, b3) < 0x1000) by (bit_vector);
    let pv = (b4 as u32) | ((b5 as u32) << 8u32);
    assert((pv & 0xf) <= 0xf && (pv >> 4u32) <= 0xfff) by (bit_vector)
        requires
            pv == (b4 as u32) | ((b5 as u32) << 8u32),
    ;
    let ip = decode_ip(b0, b1, b3) as u32;
    let stp = decode_stp(b2, b3) as u32;
    assert((ip & 0xff) as u8 == b0 && ((ip >> 8u32) & 0xff) as u8 == b1 && (stp & 0xff) as u8
        == b2 && (((stp >> 8u32) & 0x1f) | (((ip >> 16u32) & 0x7) << 5u32)) as u8 == b3)
        by (bit_vector)
        requires
            ip == decode_ip(b0, b1, b3) as u32,
            stp == decode_stp(b2, b3) as u32,
    ;
    let vc = pv & 0xf;
    let pc = pv >> 4u32;
    assert((((pc << 4u32) | vc) & 0xff) as u8 == b4 && ((((pc << 4u32) | vc) >> 8u32) & 0xff) as u8
        == b5) by (bit_vector)
        requires
            pv == (b4 as u32) | ((b5 as u32) << 8u32),
            vc == pv & 0xf,
            pc == pv >> 4u32,
    ;
    assert(encode_entry(v) =~= b);
}


// ---------------------------------------------------------------------------------------------
// Little-endian integers.

/// Little-endian encoding of a 16-bit value.
pub open spec fn le16(x: int) -> Seq<u8> {
    seq![(x % 256) as u8, ((x / 256) % 256) as u8]
}

/// Little-endian encoding of a 32-bit value.
pub open spec fn le32(x: int) -> Seq<u8> {
    seq![
        (x % 256) as u8,
        ((x / 256) % 256) as u8,
        ((x / 0x10000) % 256) as u8,
        ((x / 0x1000000) % 256) as u8,
    ]
}

/// Little-endian value of 2 bytes at `offset`.
pub open spec fn spec_le16_at(data: Seq<u8>, offset: int) -> int {
    data[offset] as int + 256 * data[offset + 1]
}

/// Little-endian value of 4 bytes at `offset`.
pub open spec fn spec_le32_at(data: Seq<u8>, offset: int) -> int {
    data[offset] as int + 0x100 * data[offset + 1] + 0x10000 * data[offset + 2] + 0x1000000
        * data[offset + 3]
}

/// Reads a little-endian 16-bit value at `offset`.
fn parse_u16(data: &[u8], offset: usize) -> (r: Result<u16, Error>)
    ensures
        match r {
            Ok(x) => offset + 2 <= data@.len() && x == spec_le16_at(data@, offset as int),
            Err(e) => offset + 2 > data@.len() && e == Error::Invalid,
        },
{
    if offset >= data.len() || data.len() - offset < 2 {
        return Err(invalid());
    }
    Ok(data[offset] as u16 + (data[offset + 1] as u16) * 256)
}

/// Reads a little-endian 32-bit value at `offset`.
fn parse_u32(data: &[u8], offset: usize) -> (r: Result<u32, Error>)
    ensures
        match r {
            Ok(x) => offset + 4 <= data@.len() && x == spec_le32_at(data@, offset as int),
            Err(e) => offset + 4 > data@.len() && e == Error::Invalid,
        },
{
    if offset >= data.len() || data.len() - offset < 4 {
        return Err(invalid());
    }
    Ok(data[offset] as u32 + (data[offset + 1] as u32) * 0x100 + (data[offset + 2] as u32)
        * 0x10000 + (data[offset + 3] as u32) * 0x1000000)
}

fn push_le16(out: &mut Vec<u8>, x: u16)
    ensures
        final(out)@ == old(out)@ + le16(x as int),
{
    out.push((x % 256) as u8);
    out.push(((x / 256) % 256) as u8);
    assert(final(out)@ =~= old(out)@ + le16(x as int));
}

fn push_le32(out: &mut Vec<u8>, x: u32)
    ensures
        final(out)@ == old(out)@ + le32(x as int),
{
    out.push((x % 256) as u8);
    out.push(((x / 256) % 256) as u8);
    out.push(((x / 0x10000) % 256) as u8);
    out.push(((x / 0x1000000) % 256) as u8);
    assert(final(out)@ =~= old(out)@ + le32(x as int));
}

// ---------------------------------------------------------------------------------------------
// Side table serialization.

/// The side table information of one function.
#[derive(Debug)]
pub struct MetadataEntry {
    /// The type index of the function.
    pub type_idx: usize,
    /// The range of the function body in the module (after the side table).
    pub parser_state: CursorState,
    /// The branch table of the function body.
    pub branch_table: Vec<BranchTableEntry>,
}

/// Number of bytes of the metadata of an entry.
pub open spec fn entry_len(e: MetadataEntry) -> int {
    10 + 6 * (e.branch_table@.len() as int)
}

/// Offset of the metadata of entry `i` (the sum of the lengths of the previous entries).
pub open spec fn entry_offset(es: Seq<MetadataEntry>, i: int) -> int
    decreases i,
{
    if i <= 0 {
        0
    } else {
        entry_offset(es, i - 1) + entry_len(es[i - 1])
    }
}

/// The offsets of entries 1 to `i` (the end of each entry).
pub open spec fn index_bytes(es: Seq<MetadataEntry>, i: int) -> Seq<u8>
    decreases i,
{
    if i <= 0 {
        Seq::empty()
    } else {
        index_bytes(es, i - 1) + le16(entry_offset(es, i))
    }
}

/// The bytes of the first `k` entries of a branch table.
pub open spec fn table_bytes(bt: Seq<BranchTableEntry>, k: int) -> Seq<u8>
    decreases k,
{
    if k <= 0 {
        Seq::empty()
    } else {
        table_bytes(bt, k - 1) + bt[k - 1].bytes()
    }
}

/// The metadata of an entry.
pub open spec fn entry_bytes(e: MetadataEntry) -> Seq<u8> {
    le16(e.type_idx as int) + le32(e.parser_state.spec_start() as int) + le32(
        e.parser_state.spec_end() as int,
    ) + table_bytes(e.branch_table@, e.branch_table@.len() as int)
}

/// The metadata of the first `i` entries.
pub open spec fn entries_bytes(es: Seq<MetadataEntry>, i: int) -> Seq<u8>
    decreases i,
{
    if i <= 0 {
        Seq::empty()
    } else {
        entries_bytes(es, i - 1) + entry_bytes(es[i - 1])
    }
}

/// Whether each field of the side table fits in its encoding.
pub open spec fn serializable(es: Seq<MetadataEntry>) -> bool {
    &&& es.len() <= 0xffff
    &&& entry_offset(es, es.len() as int) <= 0xffff
    &&& forall|j: int|
        0 <= j < es.len() ==> {
            &&& (#[trigger] es[j]).type_idx <= 0xffff
            &&& es[j].parser_state.spec_start() <= 0xffff_ffff
            &&& es[j].parser_state.spec_end() <= 0xffff_ffff
        }
}

/// The encoding of a side table: the number of functions, the offsets of the metadata of each
/// function (starting with 0), and the metadata of each function.
pub open spec fn spec_serialize(es: Seq<MetadataEntry>) -> Seq<u8> {
    le16(es.len() as int) + le16(0) + index_bytes(es, es.len() as int) + entries_bytes(
        es,
        es.len() as int,
    )
}

proof fn lemma_entry_offset_monotonic(es: Seq<MetadataEntry>, i: int, j: int)
    requires
        0 <= i <= j,
    ensures
        entry_offset(es, i) <= entry_offset(es, j),
    decreases j,
{
    if i < j {
        lemma_entry_offset_monotonic(es, i, j - 1);
    }
}

/// Encodes a side table.
pub fn serialize(side_table: &[MetadataEntry]) -> (r: Result<Vec<u8>, Error>)
    ensures
        match r {
            Ok(bytes) => serializable(side_table@) && bytes@ == spec_serialize(side_table@),
            Err(e) => !serializable(side_table@) && e == Error::Unsupported(Unsupported::SideTable),
        },
{
    let ghost es = side_table@;
    let mut res: Vec<u8> = Vec::new();
    if side_table.len() > 0xffff {
        return Err(unsupported(Unsupported::SideTable));
    }
    push_le16(&mut res, side_table.len() as u16);
    let mut index: u16 = 0;
    push_le16(&mut res, index);
    let mut i: usize = 0;
    while i < side_table.len()
        invariant
            es == side_table@,
            es.len() <= 0xffff,
            i <= es.len(),
            index == entry_offset(es, i as int),
            res@ == le16(es.len() as int) + le16(0) + index_bytes(es, i as int),
        decreases es.len() - i,
    {
        let len = side_table[i].branch_table.len();
        let next = if len > (0xffff - index as usize) / 6 {
            proof {
                lemma_entry_offset_monotonic(es, i + 1, es.len() as int);
            }
            return Err(unsupported(Unsupported::SideTable));
        } else {
            index as usize + 10 + 6 * len
        };
        if next > 0xffff {
            proof {
                lemma_entry_offset_monotonic(es, i + 1, es.len() as int);
            }
            return Err(unsupported(Unsupported::SideTable));
        }
        index = next as u16;
        push_le16(&mut res, index);
        i = i + 1;
        proof {
            assert(res@ =~= le16(es.len() as int) + le16(0) + index_bytes(es, i as int));
        }
    }
    let mut i: usize = 0;
    while i < side_table.len()
        invariant
            es == side_table@,
            es.len() <= 0xffff,
            entry_offset(es, es.len() as int) <= 0xffff,
            i <= es.len(),
            forall|j: int|
                0 <= j < i ==> {
                    &&& (#[trigger] es[j]).type_idx <= 0xffff
                    &&& es[j].parser_state.spec_start() <= 0xffff_ffff
                    &&& es[j].parser_state.spec_end() <= 0xffff_ffff
                },
            res@ == le16(es.len() as int) + le16(0) + index_bytes(es, es.len() as int)
                + entries_bytes(es, i as int),
        decreases es.len() - i,
    {
        let entry = &side_table[i];
        if entry.type_idx > 0xffff || entry.parser_state.start() > 0xffff_ffff
            || entry.parser_state.end() > 0xffff_ffff {
            return Err(unsupported(Unsupported::SideTable));
        }
        let ghost before = res@;
        push_le16(&mut res, entry.type_idx as u16);
        push_le32(&mut res, entry.parser_state.start() as u32);
        push_le32(&mut res, entry.parser_state.end() as u32);
        let ghost head = res@;
        let mut k: usize = 0;
        while k < entry.branch_table.len()
            invariant
                k <= entry.branch_table@.len(),
                res@ == head + table_bytes(entry.branch_table@, k as int),
            decreases entry.branch_table@.len() - k,
        {
            let b = entry.branch_table[k].0;
            let mut t: usize = 0;
            let ghost mid = res@;
            while t < 6
                invariant
                    t <= 6,
                    b@.len() == 6,
                    res@ == mid + b@.take(t as int),
                decreases 6 - t,
            {
                res.push(b[t]);
                t = t + 1;
                proof {
                    assert(res@ =~= mid + b@.take(t as int));
                }
            }
            k = k + 1;
            proof {
                assert(b@.take(6) =~= b@);
                assert(res@ =~= head + table_bytes(entry.branch_table@, k as int));
            }
        }
        i = i + 1;
        proof {
            assert(res@ =~= le16(es.len() as int) + le16(0) + index_bytes(es, es.len() as int)
                + entries_bytes(es, i as int));
        }
    }
    Ok(res)
}

// ---------------------------------------------------------------------------------------------
// Reading a serialized side table.

/// A serialized side table: the offsets of the metadata of each function and the metadata.
#[derive(Debug, Clone, Copy)]
pub struct SideTableView<'m> {
    /// The offsets (2 bytes each), including 0 and the length of the metadata.
    pub indices: &'m [u8],
    pub metadata: &'m [u8],
}

/// The metadata of one function.
#[derive(Debug, Copy, Clone)]
pub struct Metadata<'m>(pub &'m [u8]);

impl<'m> SideTableView<'m> {
    /// The metadata of the function at `func_idx`.
    pub fn metadata(&self, func_idx: usize) -> (r: Result<Metadata<'m>, Error>)
        ensures
            match r {
                Ok(m) => {
                    let start = spec_le16_at(self.indices@, 2 * func_idx);
                    let end = spec_le16_at(self.indices@, 2 * func_idx + 2);
                    &&& 2 * func_idx + 4 <= self.indices@.len()
                    &&& start <= end <= self.metadata@.len()
                    &&& m.0@ == self.metadata@.subrange(start, end)
                },
                Err(e) => e == Error::Invalid,
            },
            r is Ok <==> 2 * func_idx + 4 <= self.indices@.len() && spec_le16_at(self.indices@, 2 * func_idx)
                <= spec_le16_at(self.indices@, 2 * func_idx + 2) <= self.metadata@.len(),
    {
        let n = self.indices.len();
        if func_idx > (usize::MAX - 2) / 2 {
            return Err(invalid());
        }
        let start_idx = func_idx * 2;
        let end_idx = start_idx + 2;
        let start = parse_u16(self.indices, start_idx)? as usize;
        let end = parse_u16(self.indices, end_idx)? as usize;
        if start > end || end > self.metadata.len() {
            return Err(invalid());
        }
        Ok(Metadata(vstd::slice::slice_subrange(self.metadata, start, end)))
    }
}

impl<'m> Metadata<'m> {
    /// The type index of the function.
    pub fn type_idx(&self) -> (r: Result<usize, Error>)
        ensures
            match r {
                Ok(x) => 2 <= self.0@.len() && x == spec_le16_at(self.0@, 0),
                Err(e) => self.0@.len() < 2 && e == Error::Invalid,
            },
    {
        Ok(parse_u16(self.0, 0)? as usize)
    }

    /// The range of the function body in the module.
    pub fn parser_state(&self) -> (r: Result<CursorState, Error>)
        ensures
            match r {
                Ok(c) => 10 <= self.0@.len() && c.spec_start() == spec_le32_at(self.0@, 2)
                    && c.spec_end() == spec_le32_at(self.0@, 6),
                Err(e) => self.0@.len() < 10 && e == Error::Invalid,
            },
    {
        let start = parse_u32(self.0, 2)? as usize;
        let end = parse_u32(self.0, 6)? as usize;
        Ok(CursorState::from_range(start..end))
    }

    /// The number of entries of the branch table of the function.
    pub fn branch_table_len(&self) -> (r: Result<usize, Error>)
        ensures
            match r {
                Ok(n) => 10 <= self.0@.len() && (self.0@.len() - 10) % 6 == 0 && n == (
                self.0@.len() - 10) / 6,
                Err(e) => (self.0@.len() < 10 || (self.0@.len() - 10) % 6 != 0) && e
                    == Error::Invalid,
            },
    {
        if self.0.len() < 10 || (self.0.len() - 10) % 6 != 0 {
            return Err(invalid());
        }
        Ok((self.0.len() - 10) / 6)
    }

    /// The entry at `i` of the branch table of the function.
    pub fn branch_table_entry(&self, i: usize) -> (r: Result<BranchTableEntry, Error>)
        ensures
            match r {
                Ok(e) => 10 + 6 * i + 6 <= self.0@.len() && e.bytes() == self.0@.subrange(
                    10 + 6 * i,
                    10 + 6 * i + 6,
                ),
                Err(e) => 10 + 6 * i + 6 > self.0@.len() && e == Error::Invalid,
            },
    {
        let len = self.0.len();
        if len < 16 || i > (len - 16) / 6 {
            return Err(invalid());
        }
        let o = 10 + 6 * i;
        let d = self.0;
        let e = BranchTableEntry([d[o], d[o + 1], d[o + 2], d[o + 3], d[o + 4], d[o + 5]]);
        assert(e.bytes() =~= self.0@.subrange(o as int, o + 6));
        Ok(e)
    }

    /// The branch table of the function.
    pub fn branch_table(&self) -> (r: Result<Vec<BranchTableEntry>, Error>)
        ensures
            match r {
                Ok(v) => 10 <= self.0@.len() && (self.0@.len() - 10) % 6 == 0 && v@.len() == (
                self.0@.len() - 10) / 6 && forall|i: int|
                    0 <= i < v@.len() ==> (#[trigger] v@[i]).bytes() == self.0@.subrange(
                        10 + 6 * i,
                        10 + 6 * i + 6,
                    ),
                Err(e) => (self.0@.len() < 10 || (self.0@.len() - 10) % 6 != 0) && e
                    == Error::Invalid,
            },
    {
        let n = self.branch_table_len()?;
        let mut v: Vec<BranchTableEntry> = Vec::new();
        let mut i: usize = 0;
        while i < n
            invariant
                i <= n,
                n == (self.0@.len() - 10) / 6,
                10 <= self.0@.len(),
                (self.0@.len() - 10) % 6 == 0,
                v@.len() == i,
                forall|j: int|
                    0 <= j < i ==> (#[trigger] v@[j]).bytes() == self.0@.subrange(
                        10 + 6 * j,
                        10 + 6 * j + 6,
                    ),
            decreases n - i,
        {
            let e = self.branch_table_entry(i)?;
            v.push(e);
            i = i + 1;
        }
        Ok(v)
    }
}

/// Reading back the serialization of a side table gives its fields.
pub proof fn lemma_serialize_header(es: Seq<MetadataEntry>)
    requires
        serializable(es),
    ensures
        spec_le16_at(spec_serialize(es), 0) == es.len(),
        spec_le16_at(spec_serialize(es), 2) == 0,
{
    let b = spec_serialize(es);
    assert(b[0] == le16(es.len() as int)[0]);
    assert(b[1] == le16(es.len() as int)[1]);
    assert(b[2] == le16(0)[0]);
    assert(b[3] == le16(0)[1]);
}

proof fn lemma_table_bytes_len(bt: Seq<BranchTableEntry>, k: int)
    requires
        0 <= k <= bt.len(),
        forall|i: int| 0 <= i < bt.len() ==> (#[trigger] bt[i]).bytes().len() == 6,
    ensures
        table_bytes(bt, k).len() == 6 * k,
    decreases k,
{
    if k > 0 {
        lemma_table_bytes_len(bt, k - 1);
    }
}

proof fn lemma_entries_len(es: Seq<MetadataEntry>, i: int)
    requires
        0 <= i <= es.len(),
    ensures
        index_bytes(es, i).len() == 2 * i,
        entries_bytes(es, i).len() == entry_offset(es, i),
    decreases i,
{
    if i > 0 {
        lemma_entries_len(es, i - 1);
        let e = es[i - 1];
        assert forall|j: int| 0 <= j < e.branch_table@.len() implies (
        #[trigger] e.branch_table@[j]).bytes().len() == 6 by {}
        lemma_table_bytes_len(e.branch_table@, e.branch_table@.len() as int);
    }
}

/// The length of a serialized side table: a header of 4 bytes, 2 bytes per function, and the
/// metadata of each function.
pub proof fn lemma_serialize_len(es: Seq<MetadataEntry>)
    ensures
        spec_serialize(es).len() == 4 + 2 * es.len() + entry_offset(es, es.len() as int),
        serializable(es) ==> spec_serialize(es).len() <= 4 + 3 * 0xffff,
{
    lemma_entries_len(es, es.len() as int);
}


proof fn lemma_le16_read(x: int)
    requires
        0 <= x <= 0xffff,
    ensures
        le16(x).len() == 2,
        spec_le16_at(le16(x), 0) == x,
{
}

proof fn lemma_le32_read(x: int)
    requires
        0 <= x <= 0xffff_ffff,
    ensures
        le32(x).len() == 4,
        spec_le32_at(le32(x), 0) == x,
{
}

/// Each offset of the index is the end of the entry before it.
proof fn lemma_index_bytes_at(es: Seq<MetadataEntry>, i: int, k: int)
    requires
        0 <= k < i <= es.len(),
    ensures
        index_bytes(es, i).subrange(2 * k, 2 * k + 2) == le16(entry_offset(es, k + 1)),
    decreases i,
{
    lemma_entries_len(es, i - 1);
    lemma_entries_len(es, i);
    if k < i - 1 {
        lemma_index_bytes_at(es, i - 1, k);
        assert(index_bytes(es, i).subrange(2 * k, 2 * k + 2) =~= index_bytes(es, i - 1).subrange(
            2 * k,
            2 * k + 2,
        ));
    } else {
        assert(index_bytes(es, i).subrange(2 * k, 2 * k + 2) =~= le16(entry_offset(es, i)));
    }
}

/// The metadata of each entry stands between its offset and the next one.
proof fn lemma_entries_bytes_at(es: Seq<MetadataEntry>, i: int, k: int)
    requires
        0 <= k < i <= es.len(),
    ensures
        entries_bytes(es, i).subrange(entry_offset(es, k), entry_offset(es, k + 1)) == entry_bytes(
            es[k],
        ),
    decreases i,
{
    let a = entries_bytes(es, i - 1);
    let e = entry_bytes(es[i - 1]);
    assert(entries_bytes(es, i) == a + e);
    lemma_entries_len(es, i - 1);
    let x = entry_offset(es, k);
    let y = entry_offset(es, k + 1);
    lemma_entry_offset_monotonic(es, 0, k);
    lemma_entry_offset_monotonic(es, k, k + 1);
    assert(0 <= x <= y);
    if k < i - 1 {
        lemma_entry_offset_monotonic(es, k + 1, i - 1);
        lemma_entries_bytes_at(es, i - 1, k);
        assert(y <= a.len());
        assert((a + e).subrange(x, y) =~= a.subrange(x, y));
    } else {
        lemma_entries_len(es, i);
        assert(x == a.len());
        assert((a + e).subrange(x, y) =~= e);
    }
}

/// Each entry of a branch table stands at its position.
proof fn lemma_table_bytes_at(bt: Seq<BranchTableEntry>, k: int, j: int)
    requires
        0 <= j < k <= bt.len(),
    ensures
        table_bytes(bt, k).subrange(6 * j, 6 * j + 6) == bt[j].bytes(),
    decreases k,
{
    assert forall|x: int| 0 <= x < bt.len() implies (#[trigger] bt[x]).bytes().len() == 6 by {}
    lemma_table_bytes_len(bt, k - 1);
    lemma_table_bytes_len(bt, k);
    if j < k - 1 {
        lemma_table_bytes_at(bt, k - 1, j);
        assert(table_bytes(bt, k).subrange(6 * j, 6 * j + 6) =~= table_bytes(bt, k - 1).subrange(
            6 * j,
            6 * j + 6,
        ));
    } else {
        assert(table_bytes(bt, k).subrange(6 * j, 6 * j + 6) =~= bt[j].bytes());
    }
}

/// The metadata of an entry gives back its fields.
proof fn lemma_entry_bytes_read(e: MetadataEntry)
    requires
        e.type_idx <= 0xffff,
        e.parser_state.spec_start() <= 0xffff_ffff,
        e.parser_state.spec_end() <= 0xffff_ffff,
    ensures
        entry_bytes(e).len() == entry_len(e),
        spec_le16_at(entry_bytes(e), 0) == e.type_idx,
        spec_le32_at(entry_bytes(e), 2) == e.parser_state.spec_start(),
        spec_le32_at(entry_bytes(e), 6) == e.parser_state.spec_end(),
        forall|j: int|
            0 <= j < e.branch_table@.len() ==> entry_bytes(e).subrange(10 + 6 * j, 16 + 6 * j)
                == (#[trigger] e.branch_table@[j]).bytes(),
{
    let bt = e.branch_table@;
    let a = le16(e.type_idx as int);
    let b = le32(e.parser_state.spec_start() as int);
    let c = le32(e.parser_state.spec_end() as int);
    let t = table_bytes(bt, bt.len() as int);
    assert forall|x: int| 0 <= x < bt.len() implies (#[trigger] bt[x]).bytes().len() == 6 by {}
    lemma_table_bytes_len(bt, bt.len() as int);
    lemma_le16_read(e.type_idx as int);
    lemma_le32_read(e.parser_state.spec_start() as int);
    lemma_le32_read(e.parser_state.spec_end() as int);
    let m = entry_bytes(e);
    assert(m == a + b + c + t);
    assert(m.subrange(0, 2) =~= a);
    assert(m.subrange(2, 6) =~= b);
    assert(m.subrange(6, 10) =~= c);
    assert(spec_le16_at(m, 0) == spec_le16_at(a, 0));
    assert(spec_le32_at(m, 2) == spec_le32_at(b, 0));
    assert(spec_le32_at(m, 6) == spec_le32_at(c, 0));
    assert forall|j: int| 0 <= j < bt.len() implies m.subrange(10 + 6 * j, 16 + 6 * j) == (
    #[trigger] bt[j]).bytes() by {
        lemma_table_bytes_at(bt, bt.len() as int, j);
        assert(m.subrange(10 + 6 * j, 16 + 6 * j) =~= t.subrange(6 * j, 6 * j + 6));
    }
}

/// Reading a serialized side table gives back each entry: after the number of functions, the
/// offsets at `2 * i` and `2 * i + 2` delimit in the metadata the bytes of entry `i`, whose type
/// index, body range and branch table entries are those of the entry.
pub proof fn lemma_serialize_read_back(es: Seq<MetadataEntry>, i: int)
    requires
        serializable(es),
        0 <= i < es.len(),
    ensures
        ({
            let b = spec_serialize(es);
            let n = es.len() as int;
            let indices = b.subrange(2, 4 + 2 * n);
            let metadata = b.subrange(4 + 2 * n, b.len() as int);
            let start = spec_le16_at(indices, 2 * i);
            let end = spec_le16_at(indices, 2 * i + 2);
            let m = metadata.subrange(start, end);
            &&& spec_le16_at(b, 0) == n
            &&& 0 <= start <= end <= metadata.len()
            &&& m.len() == 10 + 6 * es[i].branch_table@.len()
            &&& spec_le16_at(m, 0) == es[i].type_idx
            &&& spec_le32_at(m, 2) == es[i].parser_state.spec_start()
            &&& spec_le32_at(m, 6) == es[i].parser_state.spec_end()
            &&& forall|j: int|
                0 <= j < es[i].branch_table@.len() ==> m.subrange(10 + 6 * j, 16 + 6 * j) == (
                #[trigger] es[i].branch_table@[j]).bytes()
        }),
{
    let b = spec_serialize(es);
    let n = es.len() as int;
    lemma_serialize_header(es);
    lemma_entries_len(es, n);
    let idx = index_bytes(es, n);
    let ent = entries_bytes(es, n);
    assert(b == le16(n) + le16(0) + idx + ent);
    let indices = b.subrange(2, 4 + 2 * n);
    let metadata = b.subrange(4 + 2 * n, b.len() as int);
    assert(indices =~= le16(0) + idx);
    assert(metadata =~= ent);
    lemma_entry_offset_monotonic(es, i, i + 1);
    lemma_entry_offset_monotonic(es, i + 1, n);
    lemma_entry_offset_monotonic(es, 0, i);
    // The offset of the entry.
    if i == 0 {
        assert(spec_le16_at(indices, 0) == 0);
    } else {
        lemma_index_bytes_at(es, n, i - 1);
        assert(indices.subrange(2 * i, 2 * i + 2) =~= idx.subrange(2 * (i - 1), 2 * (i - 1) + 2));
        lemma_le16_read(entry_offset(es, i));
        assert(spec_le16_at(indices, 2 * i) == spec_le16_at(le16(entry_offset(es, i)), 0));
    }
    lemma_index_bytes_at(es, n, i);
    assert(indices.subrange(2 * i + 2, 2 * i + 4) =~= idx.subrange(2 * i, 2 * i + 2));
    lemma_le16_read(entry_offset(es, i + 1));
    assert(spec_le16_at(indices, 2 * i + 2) == spec_le16_at(le16(entry_offset(es, i + 1)), 0));
    lemma_entries_bytes_at(es, n, i);
    assert(es[i].type_idx <= 0xffff);
    lemma_entry_bytes_read(es[i]);
}

} // verus!
