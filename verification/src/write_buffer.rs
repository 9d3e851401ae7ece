//! A fixed-capacity append-only arena that records new pages and
//! deleted-page tombstones as variable-length records, under a single
//! 64-bit state word packing {sealed, writer count, allocated bytes}.

use vstd::prelude::*;

use crate::Error;

verus! {

/// Byte alignment of every record and of the allocated watermark.
pub const ALIGN: u32 = 8;

/// Size in bytes of a packed `RecordHeader` in the arena.
pub const HEADER_SIZE: u32 = 16;

/// Flag word of a record that was allocated but never written.
pub const FLAG_EMPTY: u32 = 0;

/// Flag word of a record holding a page payload.
pub const FLAG_NORMAL_PAGE: u32 = 1;

/// Flag word of a record holding a list of deleted page ids.
pub const FLAG_DELETED_PAGES: u32 = 2;

/// Bit ORed onto a record's flags to suppress it during iteration.
pub const FLAG_TOMBSTONE: u32 = 0x80;

/// `x` rounded up to the next multiple of eight.
#[verifier::opaque]
pub open spec fn spec_round_align(x: int) -> int {
    ((x + 7) / 8) * 8
}

/// Rounding to word alignment is the identity on aligned values.
pub proof fn lemma_round_align_aligned(x: int)
    requires
        x >= 0,
        x % 8 == 0,
    ensures
        spec_round_align(x) == x,
{
    reveal(spec_round_align);
    assert(x % 8 == 0 && x >= 0 ==> ((x + 7) / 8) * 8 == x) by (nonlinear_arith);
}

/// Total space taken by a record with a payload of `page_size` bytes:
/// a 16-byte header plus the payload, padded to word alignment.
#[verifier::opaque]
pub open spec fn spec_record_size(page_size: int) -> int {
    16 + spec_round_align(page_size)
}

/// Round `val` up to the next multiple of `multiple`.
pub fn next_multiple_of_u32(val: u32, multiple: u32) -> (r: u32)
    requires
        multiple > 0,
        val + multiple <= u32::MAX,
    ensures
        r == ((val + multiple - 1) / (multiple as int)) * multiple,
        r % multiple == 0,
        val <= r < val + multiple,
{
    let q = (val + multiple - 1) / multiple;
    proof {
        let m = multiple as int;
        let v = val as int;
        assert(((v + m - 1) / m) * m % m == 0) by (nonlinear_arith)
            requires m > 0;
        assert(v <= ((v + m - 1) / m) * m < v + m) by (nonlinear_arith)
            requires m > 0 && v >= 0;
    }
    q * multiple
}

/// Total record space for a `page_size`-byte payload, header included.
pub fn record_size(page_size: u32) -> (r: u32)
    requires
        page_size + 24 <= u32::MAX,
    ensures
        r == spec_record_size(page_size as int),
        r % 8 == 0,
        r >= 16,
        page_size <= r - 16,
{
    proof {
        reveal(spec_record_size);
        reveal(spec_round_align);
    }
    16 + next_multiple_of_u32(page_size, ALIGN)
}

/// Whether `x` is a positive power of two.
pub open spec fn spec_is_power_of_two(x: int) -> bool
    decreases x,
{
    if x <= 0 {
        false
    } else if x == 1 {
        true
    } else {
        x % 2 == 0 && spec_is_power_of_two(x / 2)
    }
}

/// Runtime check matching `spec_is_power_of_two`.
pub fn is_power_of_two_u32(x: u32) -> (b: bool)
    ensures
        b == spec_is_power_of_two(x as int),
{
    if x == 0 {
        return false;
    }
    let mut v: u32 = x;
    while v % 2 == 0
        invariant
            v >= 1,
            spec_is_power_of_two(x as int) == spec_is_power_of_two(v as int),
        decreases v,
    {
        v = v / 2;
    }
    v == 1
}

/// The unpacked form of a write buffer's 64-bit state word.
#[derive(Clone, Copy, Debug, PartialEq, Eq, Structural)]
pub struct BufferState {
    /// No new records will be appended once set.
    pub sealed: bool,
    /// The number of writers in flight (31 bits).
    pub num_writer: u32,
    /// The bytes allocated so far, a multiple of eight.
    pub allocated: u32,
}

impl BufferState {
    /// The packed 64-bit form: bit 63 sealed, bits 32..63 writer
    /// count, bits 0..32 allocated.
    pub open spec fn spec_apply(self) -> u64 {
        (if self.sealed {
            1u64 << 63
        } else {
            0u64
        }) | ((self.num_writer as u64) << 32) | (self.allocated as u64)
    }

    /// The unpacked form of a 64-bit state word.
    pub open spec fn spec_load(val: u64) -> BufferState {
        BufferState {
            sealed: val & (1u64 << 63) != 0,
            num_writer: ((val >> 32) & 0x7FFF_FFFFu64) as u32,
            allocated: (val & 0xFFFF_FFFFu64) as u32,
        }
    }

    /// An unpacked writer count always fits its 31 bits.
    pub proof fn lemma_load_writer_bound(val: u64)
        ensures
            BufferState::spec_load(val).num_writer < 0x8000_0000,
    {
        assert((val >> 32) & 0x7FFF_FFFFu64 < 0x8000_0000u64) by (bit_vector);
    }

    /// Packing then unpacking restores every state whose writer count
    /// fits its 31 bits.
    pub proof fn lemma_load_apply_roundtrip(s: BufferState)
        requires
            s.num_writer < 0x8000_0000,
        ensures
            BufferState::spec_load(s.spec_apply()) == s,
    {
        let w = s.num_writer;
        let a = s.allocated;
        if s.sealed {
            let v = (1u64 << 63) | ((w as u64) << 32) | (a as u64);
            assert((v & (1u64 << 63) != 0) && ((v >> 32) & 0x7FFF_FFFFu64) == w as u64 && (v
                & 0xFFFF_FFFFu64) == a as u64) by (bit_vector)
                requires
                    v == (1u64 << 63) | ((w as u64) << 32) | (a as u64),
                    w < 0x8000_0000u32,
            ;
        } else {
            let v = 0u64 | ((w as u64) << 32) | (a as u64);
            assert((v & (1u64 << 63) == 0) && ((v >> 32) & 0x7FFF_FFFFu64) == w as u64 && (v
                & 0xFFFF_FFFFu64) == a as u64) by (bit_vector)
                requires
                    v == 0u64 | ((w as u64) << 32) | (a as u64),
                    w < 0x8000_0000u32,
            ;
        }
    }

    /// Unpack a 64-bit state word.
    pub fn load(val: u64) -> (s: BufferState)
        ensures
            s == BufferState::spec_load(val),
    {
        let sealed = val & (1u64 << 63) != 0;
        let num_writer_64 = (val >> 32) & 0x7FFF_FFFFu64;
        let allocated_64 = val & 0xFFFF_FFFFu64;
        proof {
            assert((val >> 32) & 0x7FFF_FFFFu64 <= 0x7FFF_FFFFu64 && val & 0xFFFF_FFFFu64
                <= 0xFFFF_FFFFu64) by (bit_vector);
        }
        BufferState { sealed, num_writer: num_writer_64 as u32, allocated: allocated_64 as u32 }
    }

    /// Pack this state into its 64-bit word.
    pub fn apply(&self) -> (r: u64)
        requires
            self.num_writer < 0x8000_0000,
        ensures
            r == self.spec_apply(),
    {
        let sealed_bits: u64 = if self.sealed {
            1u64 << 63
        } else {
            0u64
        };
        sealed_bits | ((self.num_writer as u64) << 32) | (self.allocated as u64)
    }

    /// Whether a writer is still in flight.
    pub fn has_writer(&self) -> (b: bool)
        ensures
            b == (self.num_writer > 0),
    {
        self.num_writer > 0
    }

    /// Whether this state is flushable: sealed with no writer left.
    pub open spec fn spec_is_flushable(self) -> bool {
        self.sealed && self.num_writer == 0
    }

    /// Whether this state is flushable: sealed with no writer left.
    pub fn is_flushable(&self) -> (b: bool)
        ensures
            b == self.spec_is_flushable(),
    {
        self.sealed && self.num_writer == 0
    }

    /// Set the sealed bit.
    pub fn set_sealed(&mut self)
        ensures
            *final(self) == (BufferState { sealed: true, ..*old(self) }),
    {
        self.sealed = true;
    }

    /// Admit one more writer.
    pub fn inc_writer(&mut self)
        requires
            old(self).num_writer < 0x7FFF_FFFF,
        ensures
            *final(self) == (BufferState {
                num_writer: (old(self).num_writer + 1) as u32,
                ..*old(self)
            }),
    {
        self.num_writer = self.num_writer + 1;
    }

    /// Retire one writer.
    pub fn dec_writer(&mut self)
        requires
            old(self).num_writer > 0,
        ensures
            *final(self) == (BufferState {
                num_writer: (old(self).num_writer - 1) as u32,
                ..*old(self)
            }),
    {
        self.num_writer = self.num_writer - 1;
    }

    /// Reserve `required` bytes, rounded up to word alignment, out of
    /// a buffer of `buf_size` bytes. Returns the offset of the first
    /// reserved byte, or `Again` when the space does not fit.
    pub fn alloc_size(&mut self, required: u32, buf_size: u32) -> (r: Result<u32, Error>)
        requires
            old(self).allocated % 8 == 0,
            old(self).allocated <= buf_size,
            buf_size <= 0x8000_0000,
        ensures
            final(self).sealed == old(self).sealed,
            final(self).num_writer == old(self).num_writer,
            old(self).allocated + spec_round_align(required as int) <= buf_size ==> (r
                == Result::<u32, Error>::Ok(old(self).allocated) && final(self).allocated == old(
                self,
            ).allocated + spec_round_align(required as int)),
            old(self).allocated + spec_round_align(required as int) > buf_size ==> (r
                == Result::<u32, Error>::Err(Error::Again) && *final(self) == *old(self)),
            final(self).allocated % 8 == 0,
            final(self).allocated <= buf_size,
            final(self).allocated >= old(self).allocated,
    {
        proof {
            reveal(spec_round_align);
        }
        if required > buf_size {
            proof {
                assert(spec_round_align(required as int) >= required as int) by (nonlinear_arith)
                    requires spec_round_align(required as int) == ((required as int + 7) / 8) * 8;
            }
            return Err(Error::Again);
        }
        let required = next_multiple_of_u32(required, ALIGN);
        if required > buf_size - self.allocated {
            return Err(Error::Again);
        }
        let offset = self.allocated;
        self.allocated = offset + required;
        Ok(offset)
    }
}

impl Default for BufferState {
    /// The state of a fresh buffer: open, no writer, nothing
    /// allocated.
    fn default() -> (s: Self)
        ensures
            s == (BufferState { sealed: false, num_writer: 0, allocated: 0 }),
    {
        BufferState { sealed: false, num_writer: 0, allocated: 0 }
    }
}


/// The header of a record in the arena: the page id it concerns, a
/// flag word, and the byte length of the payload that follows.
#[derive(Clone, Copy, PartialEq, Eq, Structural)]
pub struct RecordHeader {
    /// The page the record concerns; zero for deleted-page records.
    pub page_id: u64,
    /// One of the `FLAG_*` words, with `FLAG_TOMBSTONE` possibly ORed on.
    pub flags: u32,
    /// The byte length of the payload, before padding.
    pub page_size: u32,
}

impl RecordHeader {
    /// Total space of this record including the header, padded to
    /// word alignment.
    pub fn record_size(&self) -> (r: u32)
        requires
            self.page_size + 24 <= u32::MAX,
        ensures
            r == spec_record_size(self.page_size as int),
    {
        record_size(self.page_size)
    }

    /// Suppress this record during iteration.
    pub fn set_tombstone(&mut self)
        ensures
            *final(self) == (RecordHeader { flags: old(self).flags | FLAG_TOMBSTONE, ..*old(self) }),
    {
        self.flags = self.flags | FLAG_TOMBSTONE;
    }

    /// The byte length of the payload.
    pub fn page_size(&self) -> (r: u32)
        ensures
            r == self.page_size,
    {
        self.page_size
    }

    /// The page the record concerns.
    pub fn page_id(&self) -> (r: u64)
        ensures
            r == self.page_id,
    {
        self.page_id
    }
}

/// The payload of a record: page bytes, deleted page ids, or nothing
/// for a slot that was reserved but never written.
pub enum RecordPayload {
    /// The bytes of a new page.
    Page(Vec<u8>),
    /// The ids of deleted pages.
    DeletedPages(Vec<u64>),
    /// A reserved slot that holds no record.
    Empty,
}

/// One record of the arena: its byte offset, header, and payload.
pub struct Record {
    /// Byte offset of the header within the arena.
    pub offset: u32,
    /// The record's header.
    pub header: RecordHeader,
    /// The record's payload.
    pub payload: RecordPayload,
}

impl Record {
    /// Total arena space this record occupies.
    pub open spec fn size(self) -> int {
        spec_record_size(self.header.page_size as int)
    }

    /// Byte offset one past this record's padded payload.
    pub open spec fn end(self) -> int {
        self.offset + self.size()
    }

    /// Byte offset of the payload (one past the header).
    pub open spec fn payload_offset(self) -> int {
        self.offset + 16
    }

    /// The payload kind agrees with the flag word and the declared
    /// payload length.
    pub open spec fn wf(self) -> bool {
        match self.payload {
            RecordPayload::Page(b) => (self.header.flags == FLAG_NORMAL_PAGE || self.header.flags
                == FLAG_NORMAL_PAGE | FLAG_TOMBSTONE) && b@.len() == self.header.page_size,
            RecordPayload::DeletedPages(v) => (self.header.flags == FLAG_DELETED_PAGES
                || self.header.flags == FLAG_DELETED_PAGES | FLAG_TOMBSTONE) && v@.len() * 8
                == self.header.page_size,
            RecordPayload::Empty => self.header.flags == FLAG_EMPTY && self.header.page_size == 0,
        }
    }

    /// Whether iteration emits this record: exactly the untombstoned
    /// page and deleted-page records.
    pub open spec fn emitted(self) -> bool {
        self.header.flags == FLAG_NORMAL_PAGE || self.header.flags == FLAG_DELETED_PAGES
    }

    /// This record with `FLAG_TOMBSTONE` ORed onto its flags.
    pub open spec fn tombstoned(self) -> Record {
        Record {
            header: RecordHeader { flags: self.header.flags | FLAG_TOMBSTONE, ..self.header },
            ..self
        }
    }
}

/// The combined flag words of tombstoned records, folded to
/// constants.
pub proof fn lemma_flag_values()
    ensures
        FLAG_NORMAL_PAGE | FLAG_TOMBSTONE == 0x81u32,
        FLAG_DELETED_PAGES | FLAG_TOMBSTONE == 0x82u32,
        FLAG_NORMAL_PAGE | FLAG_TOMBSTONE != FLAG_NORMAL_PAGE,
        FLAG_DELETED_PAGES | FLAG_TOMBSTONE != FLAG_DELETED_PAGES,
{
    assert(1u32 | 0x80u32 == 0x81u32 && 2u32 | 0x80u32 == 0x82u32) by (bit_vector);
}

/// The record-size formula, exposed for one value at a time.
pub proof fn lemma_record_size_value(p: int)
    requires
        p >= 0,
    ensures
        spec_record_size(p) == 16 + ((p + 7) / 8) * 8,
{
    reveal(spec_record_size);
    reveal(spec_round_align);
}

/// A record occupies at least its 16-byte header and covers its
/// payload.
pub proof fn lemma_record_size_bounds(page_size: int)
    requires
        page_size >= 0,
    ensures
        spec_record_size(page_size) >= 16 + page_size,
        spec_record_size(page_size) % 8 == 0,
{
    reveal(spec_record_size);
    reveal(spec_round_align);
    assert(((page_size + 7) / 8) * 8 >= page_size && (((page_size + 7) / 8) * 8) % 8 == 0)
        by (nonlinear_arith)
        requires page_size >= 0;
}

/// A 64-bit page address: the owning buffer's file id in the upper
/// half, the payload's byte offset in the lower half.
pub open spec fn spec_page_addr(file_id: u32, offset: u32) -> u64 {
    ((file_id as u64) * 0x1_0000_0000 + (offset as u64)) as u64
}

/// Compose a page address from a file id and a payload offset.
pub fn make_page_addr(file_id: u32, offset: u32) -> (a: u64)
    ensures
        a == spec_page_addr(file_id, offset),
{
    let a = ((file_id as u64) << 32) | (offset as u64);
    proof {
        let f = file_id;
        let o = offset;
        assert(((f as u64) << 32) | (o as u64) == (f as u64) * 0x1_0000_0000u64 + (o as u64))
            by (bit_vector);
    }
    a
}

/// Split a page address into its file id and payload offset.
pub fn split_page_addr(addr: u64) -> (r: (u32, u32))
    ensures
        addr == spec_page_addr(r.0, r.1),
{
    let hi = (addr >> 32) as u32;
    let lo = (addr & 0xFFFF_FFFFu64) as u32;
    proof {
        assert((addr >> 32) <= 0xFFFF_FFFFu64 && (addr & 0xFFFF_FFFFu64) <= 0xFFFF_FFFFu64
            && ((addr >> 32) & 0xFFFF_FFFFu64) * 0x1_0000_0000u64 + (addr & 0xFFFF_FFFFu64) == addr
            && (addr >> 32) & 0xFFFF_FFFFu64 == addr >> 32) by (bit_vector);
    }
    (hi, lo)
}



/// Signals whether the caller must notify the flush worker after
/// releasing a writer or sealing.
pub enum ReleaseState {
    /// The buffer is still active or writers are still in flight.
    Pending,
    /// The buffer is sealed and the last writer has been released.
    Flush,
}

/// Any single transition the write buffer performs on its state word:
/// a space reservation (possibly admitting a writer), a seal
/// (possibly releasing a writer), a writer release, or a failed
/// attempt that leaves the state unchanged.
pub open spec fn spec_writer_step(pre: BufferState, post: BufferState) -> bool {
    ||| post == pre
    ||| (!pre.sealed && !post.sealed && post.num_writer >= pre.num_writer && post.allocated
        >= pre.allocated)
    ||| (!pre.sealed && post.sealed && post.num_writer <= pre.num_writer && post.allocated
        == pre.allocated)
    ||| (pre.num_writer > 0 && post.sealed == pre.sealed && post.num_writer < pre.num_writer
        && post.allocated == pre.allocated)
}

/// Law: a flushable state (sealed with no writer in flight) is a
/// fixed point of the write buffer's transitions: no step can leave
/// it.
pub proof fn lemma_flushable_fixed_point(pre: BufferState, post: BufferState)
    requires
        pre.spec_is_flushable(),
        spec_writer_step(pre, post),
    ensures
        post == pre,
        post.spec_is_flushable(),
{
}

/// A fixed-capacity arena of page and deleted-page records under one
/// packed state word. The fields are exposed for specification;
/// mutate only through the methods, which keep `wf`.
pub struct WriteBuffer {
    /// The id of the file this buffer will be flushed into.
    pub file_id: u32,
    /// The fixed byte capacity of the arena.
    pub buf_size: u32,
    /// The packed {sealed, writer count, allocated} state word.
    pub state_word: u64,
    /// The records installed so far, in arena order.
    pub records: Vec<Record>,
}

impl WriteBuffer {
    /// The unpacked state word.
    pub open spec fn st(self) -> BufferState {
        BufferState::spec_load(self.state_word)
    }

    /// Byte offset one past the last installed record.
    pub open spec fn records_end(self) -> int {
        if self.records@.len() == 0 {
            0
        } else {
            self.records@[self.records@.len() - 1].end()
        }
    }

    /// Well-formedness: capacity is a power of two above one word;
    /// the allocated watermark is word-aligned and within capacity;
    /// records are well formed, word-aligned, disjoint and ordered,
    /// and lie below the watermark.
    pub open spec fn wf(self) -> bool {
        &&& self.buf_size > 8
        &&& self.buf_size <= 0x8000_0000
        &&& spec_is_power_of_two(self.buf_size as int)
        &&& self.st().allocated <= self.buf_size
        &&& self.st().allocated % 8 == 0
        &&& (forall|i: int|
            0 <= i < self.records@.len() ==> (#[trigger] self.records@[i]).wf())
        &&& (forall|i: int|
            0 <= i < self.records@.len() ==> (#[trigger] self.records@[i]).offset % 8 == 0)
        &&& (forall|i: int|
            0 <= i && i + 1 < self.records@.len() ==> (#[trigger] self.records@[i]).end()
                <= self.records@[i + 1].offset)
        &&& (forall|i: int|
            0 <= i < self.records@.len() ==> (#[trigger] self.records@[i]).end()
                <= self.st().allocated)
    }

    /// Records earlier in the arena end before later ones begin.
    pub proof fn lemma_ordered(self, i: int, j: int)
        requires
            self.wf(),
            0 <= i < j < self.records@.len(),
        ensures
            self.records@[i].end() <= self.records@[j].offset,
        decreases j - i,
    {
        if i + 1 < j {
            self.lemma_ordered(i, j - 1);
            lemma_record_size_bounds(self.records@[j - 1].header.page_size as int);
        }
    }

    /// Distinct records have distinct payload offsets.
    pub proof fn lemma_offsets_distinct(self, i: int, j: int)
        requires
            self.wf(),
            0 <= i < self.records@.len(),
            0 <= j < self.records@.len(),
            i != j,
        ensures
            self.records@[i].payload_offset() != self.records@[j].payload_offset(),
    {
        lemma_record_size_bounds(self.records@[i].header.page_size as int);
        lemma_record_size_bounds(self.records@[j].header.page_size as int);
        if i < j {
            self.lemma_ordered(i, j);
        } else {
            self.lemma_ordered(j, i);
        }
    }

    /// Whether some record's payload begins at arena offset
    /// `payload_off`.
    pub open spec fn spec_has_record_at(self, payload_off: int) -> bool {
        exists|i: int|
            0 <= i < self.records@.len() && (#[trigger] self.records@[i]).payload_offset()
                == payload_off
    }

    /// The index of the record whose payload begins at `payload_off`.
    pub open spec fn spec_record_index(self, payload_off: int) -> int {
        choose|i: int|
            0 <= i < self.records@.len() && (#[trigger] self.records@[i]).payload_offset()
                == payload_off
    }

    /// The record whose payload begins at `payload_off`.
    pub open spec fn spec_record_at(self, payload_off: int) -> Record {
        self.records@[self.spec_record_index(payload_off)]
    }

    /// In a well-formed buffer, the record found at a payload offset
    /// is exactly the record that was installed there.
    pub proof fn lemma_record_at_index(self, i: int)
        requires
            self.wf(),
            0 <= i < self.records@.len(),
        ensures
            self.spec_has_record_at(self.records@[i].payload_offset()),
            self.spec_record_index(self.records@[i].payload_offset()) == i,
            self.spec_record_at(self.records@[i].payload_offset()) == self.records@[i],
    {
        let off = self.records@[i].payload_offset();
        assert(self.spec_has_record_at(off));
        let j = self.spec_record_index(off);
        if j != i {
            self.lemma_offsets_distinct(i, j);
        }
    }

    /// Powers of two do not fall strictly between a power of two and
    /// its double.
    proof fn lemma_pow2_le(x: int, b: int)
        requires
            spec_is_power_of_two(x),
            spec_is_power_of_two(b),
            x < 2 * b,
        ensures
            x <= b,
        decreases x,
    {
        if x > 1 {
            if b > 1 {
                Self::lemma_pow2_le(x / 2, b / 2);
            }
        }
    }

    /// Allocate a fresh open buffer of `size` bytes for file
    /// `file_id`. The capacity must be a power of two larger than one
    /// machine word.
    pub fn with_capacity(file_id: u32, size: u32) -> (wb: WriteBuffer)
        requires
            size > 8,
            spec_is_power_of_two(size as int),
        ensures
            wb.wf(),
            wb.file_id == file_id,
            wb.buf_size == size,
            wb.st() == (BufferState { sealed: false, num_writer: 0, allocated: 0 }),
            wb.records@.len() == 0,
    {
        proof {
            reveal_with_fuel(spec_is_power_of_two, 33);
            assert(spec_is_power_of_two(0x8000_0000));
            Self::lemma_pow2_le(size as int, 0x8000_0000);
        }
        let state = BufferState::default();
        let state_word = state.apply();
        proof {
            BufferState::lemma_load_apply_roundtrip(state);
        }
        WriteBuffer { file_id, buf_size: size, state_word, records: Vec::new() }
    }

    /// The id of the file this buffer will be flushed into.
    pub fn file_id(&self) -> (r: u32)
        ensures
            r == self.file_id,
    {
        self.file_id
    }

    /// The unpacked state word.
    pub fn buffer_state(&self) -> (s: BufferState)
        ensures
            s == self.st(),
    {
        BufferState::load(self.state_word)
    }

    /// Whether the buffer is sealed with no writer left.
    pub fn is_flushable(&self) -> (b: bool)
        ensures
            b == self.st().spec_is_flushable(),
    {
        self.buffer_state().is_flushable()
    }

    /// Whether the buffer is sealed.
    pub fn is_sealed(&self) -> (b: bool)
        ensures
            b == self.st().sealed,
    {
        self.buffer_state().sealed
    }

    /// Reserve `need` bytes (rounded up to word alignment) and
    /// optionally admit a writer. Returns the offset of the first
    /// reserved byte; fails with `Again` when the buffer is sealed or
    /// the space does not fit.
    #[verifier::rlimit(100)]
    #[verifier::spinoff_prover]
    pub fn alloc_size(&mut self, need: u32, acquire_writer: bool) -> (r: Result<u32, Error>)
        requires
            old(self).wf(),
            acquire_writer ==> old(self).st().num_writer < 0x7FFF_FFFF,
        ensures
            final(self).wf(),
            final(self).file_id == old(self).file_id,
            final(self).buf_size == old(self).buf_size,
            final(self).records == old(self).records,
            spec_writer_step(old(self).st(), final(self).st()),
            old(self).st().sealed ==> r == Result::<u32, Error>::Err(Error::Again) && *final(self)
                == *old(self),
            !old(self).st().sealed && old(self).st().allocated + spec_round_align(need as int)
                > old(self).buf_size ==> r == Result::<u32, Error>::Err(Error::Again)
                && *final(self) == *old(self),
            !old(self).st().sealed && old(self).st().allocated + spec_round_align(need as int)
                <= old(self).buf_size ==> r == Result::<u32, Error>::Ok(old(self).st().allocated)
                && final(self).st() == (BufferState {
                sealed: false,
                num_writer: (old(self).st().num_writer + if acquire_writer {
                    1int
                } else {
                    0int
                }) as u32,
                allocated: (old(self).st().allocated + spec_round_align(need as int)) as u32,
            }),
    {
        proof {
            BufferState::lemma_load_writer_bound(self.state_word);
        }
        let mut state = BufferState::load(self.state_word);
        if state.sealed {
            return Err(Error::Again);
        }
        if acquire_writer {
            state.inc_writer();
        }
        match state.alloc_size(need, self.buf_size) {
            Ok(offset) => {
                self.state_word = state.apply();
                proof {
                    BufferState::lemma_load_apply_roundtrip(state);
                }
                Ok(offset)
            },
            Err(e) => Err(e),
        }
    }
}



/// The file id half of a page address.
pub open spec fn spec_addr_file_id(addr: u64) -> u32 {
    (addr / 0x1_0000_0000) as u32
}

/// The payload offset half of a page address.
pub open spec fn spec_addr_offset(addr: u64) -> u32 {
    (addr % 0x1_0000_0000) as u32
}

/// A composed page address decomposes into the same file id and
/// offset.
pub proof fn lemma_addr_decompose(file_id: u32, offset: u32)
    ensures
        spec_addr_file_id(spec_page_addr(file_id, offset)) == file_id,
        spec_addr_offset(spec_page_addr(file_id, offset)) == offset,
{
    let f = file_id as int;
    let o = offset as int;
    assert((f * 0x1_0000_0000 + o) / 0x1_0000_0000 == f && (f * 0x1_0000_0000 + o) % 0x1_0000_0000
        == o) by (nonlinear_arith)
        requires 0 <= o < 0x1_0000_0000 && 0 <= f;
}

/// A page payload filled with zeroes, as a fresh allocation hands it
/// out.
fn zero_page(n: u32) -> (v: Vec<u8>)
    ensures
        v@.len() == n,
        forall|j: int| 0 <= j < n ==> v@[j] == 0,
{
    let mut v: Vec<u8> = Vec::new();
    let mut i: u32 = 0;
    while i < n
        invariant
            i <= n,
            v@.len() == i,
            forall|j: int| 0 <= j < i ==> v@[j] == 0,
        decreases n - i,
    {
        v.push(0u8);
        i = i + 1;
    }
    v
}

impl WriteBuffer {
    /// Append a page record at the head of the free space: a
    /// `FLAG_NORMAL_PAGE` header followed by a zeroed payload of
    /// `page_size` bytes. Returns the record's page address; fill the
    /// payload through `write_page`. Fails with `Again` when the
    /// buffer is sealed or the record does not fit.
    #[verifier::rlimit(100)]
    #[verifier::spinoff_prover]
    pub fn alloc_page(&mut self, page_id: u64, page_size: u32, acquire_writer: bool) -> (r: Result<
        u64,
        Error,
    >)
        requires
            old(self).wf(),
            acquire_writer ==> old(self).st().num_writer < 0x7FFF_FFFF,
        ensures
            final(self).wf(),
            final(self).file_id == old(self).file_id,
            final(self).buf_size == old(self).buf_size,
            spec_writer_step(old(self).st(), final(self).st()),
            old(self).st().sealed || old(self).st().allocated + spec_record_size(page_size as int)
                > old(self).buf_size ==> r == Result::<u64, Error>::Err(Error::Again)
                && *final(self) == *old(self),
            !old(self).st().sealed && old(self).st().allocated + spec_record_size(page_size as int)
                <= old(self).buf_size ==> ({
                &&& r == Result::<u64, Error>::Ok(
                    spec_page_addr(old(self).file_id, (old(self).st().allocated + 16) as u32),
                )
                &&& final(self).records@.len() == old(self).records@.len() + 1
                &&& (forall|k: int|
                    0 <= k < old(self).records@.len() ==> final(self).records@[k]
                        == old(self).records@[k])
                &&& final(self).records@.last().offset == old(self).st().allocated
                &&& final(self).records@.last().header == (RecordHeader {
                    page_id,
                    flags: FLAG_NORMAL_PAGE,
                    page_size,
                })
                &&& (final(self).records@.last().payload matches RecordPayload::Page(b) && b@.len()
                    == page_size && (forall|j: int| 0 <= j < page_size ==> b@[j] == 0))
                &&& final(self).st() == (BufferState {
                    sealed: false,
                    num_writer: (old(self).st().num_writer + if acquire_writer {
                        1int
                    } else {
                        0int
                    }) as u32,
                    allocated: (old(self).st().allocated + spec_record_size(
                        page_size as int,
                    )) as u32,
                })
                &&& final(self).spec_has_record_at(old(self).st().allocated + 16)
                &&& final(self).spec_record_at(old(self).st().allocated + 16)
                    == final(self).records@.last()
            }),
    {
        proof {
            lemma_record_size_bounds(page_size as int);
            lemma_round_align_aligned(spec_record_size(page_size as int));
        }
        if page_size >= self.buf_size {
            return Err(Error::Again);
        }
        let acquire_size = record_size(page_size);
        let offset = match self.alloc_size(acquire_size, acquire_writer) {
            Ok(o) => o,
            Err(e) => {
                return Err(e);
            },
        };
        let payload = zero_page(page_size);
        let header = RecordHeader { page_id, flags: FLAG_NORMAL_PAGE, page_size };
        let ghost pre = *self;
        self.records.push(Record { offset, header, payload: RecordPayload::Page(payload) });
        proof {
            lemma_record_size_bounds(page_size as int);
            let newr = self.records@;
            let n = pre.records@.len() as int;
            assert(newr =~= pre.records@.push(newr[n]));
            assert(newr[n].wf());
            assert(newr[n].end() == self.st().allocated);
            assert forall|i: int| 0 <= i < newr.len() implies (#[trigger] newr[i]).wf() by {
                if i < n {
                    assert(pre.records@[i].wf());
                }
            }
            assert forall|i: int| 0 <= i < newr.len() implies (#[trigger] newr[i]).offset % 8
                == 0 by {
                if i < n {
                    assert(pre.records@[i].offset % 8 == 0);
                }
            }
            assert forall|i: int| 0 <= i && i + 1 < newr.len() implies (#[trigger] newr[i]).end()
                <= newr[i + 1].offset by {
                if i + 1 < n {
                    assert(pre.records@[i].end() <= pre.records@[i + 1].offset);
                } else {
                    assert(old(self).records@[i].end() <= old(self).st().allocated);
                }
            }
            assert forall|i: int| 0 <= i < newr.len() implies (#[trigger] newr[i]).end()
                <= self.st().allocated by {
                if i < n {
                    assert(old(self).records@[i].end() <= old(self).st().allocated);
                }
            }
            assert(self.wf());
            self.lemma_record_at_index(self.records@.len() - 1);
        }
        let page_offset = offset + HEADER_SIZE;
        Ok(make_page_addr(self.file_id, page_offset))
    }

    /// Retire one writer. Returns `Flush` exactly when the buffer
    /// thereby becomes flushable, signalling the caller to notify the
    /// flush worker.
    pub fn release_writer(&mut self) -> (r: ReleaseState)
        requires
            old(self).wf(),
            old(self).st().num_writer > 0,
        ensures
            final(self).wf(),
            final(self).file_id == old(self).file_id,
            final(self).buf_size == old(self).buf_size,
            final(self).records == old(self).records,
            spec_writer_step(old(self).st(), final(self).st()),
            final(self).st() == (BufferState {
                num_writer: (old(self).st().num_writer - 1) as u32,
                ..old(self).st()
            }),
            r == ReleaseState::Flush <==> final(self).st().spec_is_flushable(),
    {
        proof {
            BufferState::lemma_load_writer_bound(self.state_word);
        }
        let mut state = BufferState::load(self.state_word);
        state.dec_writer();
        self.state_word = state.apply();
        proof {
            BufferState::lemma_load_apply_roundtrip(state);
        }
        if state.is_flushable() {
            ReleaseState::Flush
        } else {
            ReleaseState::Pending
        }
    }

    /// Seal the buffer, optionally releasing a writer with the same
    /// call. Fails with `Again` when the buffer is already sealed and
    /// no writer is to be released; otherwise returns `Flush` exactly
    /// when the buffer ends up flushable.
    pub fn seal(&mut self, release_writer: bool) -> (r: Result<ReleaseState, Error>)
        requires
            old(self).wf(),
            release_writer ==> old(self).st().num_writer > 0,
        ensures
            final(self).wf(),
            final(self).file_id == old(self).file_id,
            final(self).buf_size == old(self).buf_size,
            final(self).records == old(self).records,
            spec_writer_step(old(self).st(), final(self).st()),
            old(self).st().sealed && !release_writer ==> r == Result::<ReleaseState, Error>::Err(
                Error::Again,
            ) && *final(self) == *old(self),
            old(self).st().sealed && release_writer ==> final(self).st() == (BufferState {
                num_writer: (old(self).st().num_writer - 1) as u32,
                ..old(self).st()
            }),
            !old(self).st().sealed ==> final(self).st() == (BufferState {
                sealed: true,
                num_writer: (old(self).st().num_writer - if release_writer {
                    1int
                } else {
                    0int
                }) as u32,
                allocated: old(self).st().allocated,
            }),
            !(old(self).st().sealed && !release_writer) ==> r == Result::<
                ReleaseState,
                Error,
            >::Ok(
                if final(self).st().spec_is_flushable() {
                    ReleaseState::Flush
                } else {
                    ReleaseState::Pending
                },
            ),
    {
        proof {
            BufferState::lemma_load_writer_bound(self.state_word);
        }
        let mut state = BufferState::load(self.state_word);
        if state.sealed {
            if release_writer {
                return Ok(self.release_writer());
            }
            return Err(Error::Again);
        }
        state.set_sealed();
        if release_writer {
            state.dec_writer();
        }
        self.state_word = state.apply();
        proof {
            BufferState::lemma_load_apply_roundtrip(state);
        }
        if state.has_writer() {
            Ok(ReleaseState::Pending)
        } else {
            Ok(ReleaseState::Flush)
        }
    }
}



impl WriteBuffer {
    /// Appending a well-formed, aligned record that starts at or
    /// after the previous records and ends within the watermark keeps
    /// the buffer well formed.
    proof fn lemma_wf_push(pre: WriteBuffer, post: WriteBuffer)
        requires
            pre.wf(),
            post.buf_size == pre.buf_size,
            post.st().allocated <= post.buf_size,
            post.st().allocated % 8 == 0,
            post.st().allocated >= pre.st().allocated,
            post.records@.len() == pre.records@.len() + 1,
            forall|k: int|
                0 <= k < pre.records@.len() ==> post.records@[k] == pre.records@[k],
            post.records@.last().wf(),
            post.records@.last().offset % 8 == 0,
            post.records@.last().offset >= pre.records_end(),
            post.records@.last().end() <= post.st().allocated,
        ensures
            post.wf(),
    {
        let newr = post.records@;
        let n = pre.records@.len() as int;
        assert forall|i: int| 0 <= i < newr.len() implies (#[trigger] newr[i]).wf() by {
            if i < n {
                assert(pre.records@[i].wf());
            }
        }
        assert forall|i: int| 0 <= i < newr.len() implies (#[trigger] newr[i]).offset % 8 == 0 by {
            if i < n {
                assert(pre.records@[i].offset % 8 == 0);
            }
        }
        assert forall|i: int| 0 <= i && i + 1 < newr.len() implies (#[trigger] newr[i]).end()
            <= newr[i + 1].offset by {
            if i + 1 < n {
                assert(pre.records@[i].end() <= pre.records@[i + 1].offset);
            } else {
                assert(pre.records@[i].end() == pre.records_end());
            }
        }
        assert forall|i: int| 0 <= i < newr.len() implies (#[trigger] newr[i]).end()
            <= post.st().allocated by {
            if i < n {
                assert(pre.records@[i].end() <= pre.st().allocated);
            }
        }
    }

    /// Replacing one record by another with the same offset and
    /// declared payload size keeps the buffer well formed.
    proof fn lemma_wf_update(pre: WriteBuffer, post: WriteBuffer, idx: int)
        requires
            pre.wf(),
            post.buf_size == pre.buf_size,
            post.state_word == pre.state_word,
            0 <= idx < pre.records@.len(),
            post.records@ == pre.records@.update(idx, post.records@[idx]),
            post.records@[idx].wf(),
            post.records@[idx].offset == pre.records@[idx].offset,
            post.records@[idx].header.page_size == pre.records@[idx].header.page_size,
        ensures
            post.wf(),
    {
        let newr = post.records@;
        assert forall|k: int| 0 <= k < newr.len() implies (#[trigger] newr[k]).wf() by {
            if k != idx {
                assert(pre.records@[k].wf());
            }
        }
        assert forall|k: int| 0 <= k < newr.len() implies (#[trigger] newr[k]).offset % 8 == 0 by {
            assert(pre.records@[k].offset % 8 == 0);
        }
        assert forall|k: int| 0 <= k && k + 1 < newr.len() implies (#[trigger] newr[k]).end()
            <= newr[k + 1].offset by {
            assert(pre.records@[k].end() <= pre.records@[k + 1].offset);
        }
        assert forall|k: int| 0 <= k < newr.len() implies (#[trigger] newr[k]).end()
            <= post.st().allocated by {
            assert(pre.records@[k].end() <= pre.st().allocated);
        }
    }

    /// The last installed record ends at or before the watermark, so
    /// a fresh allocation starts past every installed record.
    proof fn lemma_records_end_within(self)
        requires
            self.wf(),
        ensures
            self.records_end() <= self.st().allocated,
            self.records_end() >= 0,
    {
        if self.records@.len() > 0 {
            assert(self.records@[self.records@.len() - 1].end() <= self.st().allocated);
            lemma_record_size_bounds(
                self.records@[self.records@.len() - 1].header.page_size as int,
            );
        }
    }

    /// Append a deleted-pages record: a `FLAG_DELETED_PAGES` header
    /// followed by the given page addresses. Returns the record's
    /// page address, for tombstoning it later. Fails with `Again`
    /// when the buffer is sealed or the record does not fit.
    #[verifier::rlimit(100)]
    #[verifier::spinoff_prover]
    pub fn save_deleted_pages(&mut self, page_addrs: &Vec<u64>, acquire_writer: bool) -> (r: Result<
        u64,
        Error,
    >)
        requires
            old(self).wf(),
            acquire_writer ==> old(self).st().num_writer < 0x7FFF_FFFF,
        ensures
            final(self).wf(),
            final(self).file_id == old(self).file_id,
            final(self).buf_size == old(self).buf_size,
            spec_writer_step(old(self).st(), final(self).st()),
            old(self).st().sealed || old(self).st().allocated + spec_record_size(
                8 * page_addrs@.len() as int,
            ) as int > old(self).buf_size ==> r == Result::<u64, Error>::Err(Error::Again) && *final(self)
                == *old(self),
            !old(self).st().sealed && old(self).st().allocated + spec_record_size(
                8 * page_addrs@.len() as int,
            ) as int <= old(self).buf_size ==> ({
                &&& r == Result::<u64, Error>::Ok(
                    spec_page_addr(old(self).file_id, (old(self).st().allocated + 16) as u32),
                )
                &&& final(self).records@.len() == old(self).records@.len() + 1
                &&& (forall|k: int|
                    0 <= k < old(self).records@.len() ==> final(self).records@[k]
                        == old(self).records@[k])
                &&& final(self).records@.last().offset == old(self).st().allocated
                &&& final(self).records@.last().header == (RecordHeader {
                    page_id: 0,
                    flags: FLAG_DELETED_PAGES,
                    page_size: (8 * page_addrs@.len()) as u32,
                })
                &&& (final(self).records@.last().payload matches RecordPayload::DeletedPages(v)
                    && v@ == page_addrs@)
                &&& final(self).st() == (BufferState {
                    sealed: false,
                    num_writer: (old(self).st().num_writer + if acquire_writer {
                        1int
                    } else {
                        0int
                    }) as u32,
                    allocated: (old(self).st().allocated + spec_record_size(
                        8 * page_addrs@.len() as int,
                    )) as u32,
                })
                &&& final(self).spec_has_record_at(old(self).st().allocated + 16)
                &&& final(self).spec_record_at(old(self).st().allocated + 16)
                    == final(self).records@.last()
            }),
    {
        proof {
            lemma_record_size_bounds(8 * page_addrs@.len() as int);
        }
        if page_addrs.len() >= (self.buf_size / 8) as usize {
            return Err(Error::Again);
        }
        let deleted_size: u32 = (page_addrs.len() as u32) * 8;
        proof {
            lemma_round_align_aligned(spec_record_size(deleted_size as int));
            lemma_record_size_bounds(deleted_size as int);
        }
        let acquire_size = record_size(deleted_size);
        let offset = match self.alloc_size(acquire_size, acquire_writer) {
            Ok(o) => o,
            Err(e) => {
                return Err(e);
            },
        };
        let body = page_addrs.clone();
        proof {
            assert(body@ =~= page_addrs@);
            old(self).lemma_records_end_within();
        }
        let header = RecordHeader { page_id: 0, flags: FLAG_DELETED_PAGES, page_size: deleted_size };
        let ghost pre = *self;
        self.records.push(Record { offset, header, payload: RecordPayload::DeletedPages(body) });
        proof {
            Self::lemma_wf_push(pre, *self);
            self.lemma_record_at_index(self.records@.len() - 1);
        }
        let page_offset = offset + HEADER_SIZE;
        Ok(make_page_addr(self.file_id, page_offset))
    }

    /// Find the index of the record whose payload begins at
    /// `payload_off`.
    fn find_record(&self, payload_off: u32) -> (i: usize)
        requires
            self.wf(),
            self.spec_has_record_at(payload_off as int),
        ensures
            i < self.records@.len(),
            self.records@[i as int].payload_offset() == payload_off,
            self.spec_record_index(payload_off as int) == i,
            self.spec_record_at(payload_off as int) == self.records@[i as int],
    {
        let n = self.records.len();
        let mut i: usize = 0;
        while i < n
            invariant
                self.wf(),
                self.spec_has_record_at(payload_off as int),
                n == self.records@.len(),
                i <= n,
                forall|k: int|
                    0 <= k < i ==> (#[trigger] self.records@[k]).payload_offset() != payload_off,
            decreases n - i,
        {
            proof {
                lemma_record_size_bounds(self.records@[i as int].header.page_size as int);
                assert(self.records@[i as int].end() <= self.st().allocated);
            }
            if self.records[i].offset + HEADER_SIZE == payload_off {
                proof {
                    self.lemma_record_at_index(i as int);
                }
                return i;
            }
            i = i + 1;
        }
        proof {
            let j = choose|j: int|
                0 <= j < self.records@.len() && (#[trigger] self.records@[j]).payload_offset()
                    == payload_off as int;
            assert(self.records@[j].payload_offset() != payload_off);
            assert(false);
        }
        vstd::pervasive::unreached()
    }

    /// OR `FLAG_TOMBSTONE` onto the record at `page_addr`, so that
    /// iteration skips it. This is how a caller cancels a record
    /// whose higher-level compare-and-swap lost.
    #[verifier::rlimit(100)]
    #[verifier::spinoff_prover]
    pub fn set_tombstone(&mut self, page_addr: u64)
        requires
            old(self).wf(),
            spec_addr_file_id(page_addr) == old(self).file_id,
            old(self).spec_has_record_at(spec_addr_offset(page_addr) as int),
            !(old(self).spec_record_at(spec_addr_offset(page_addr) as int).payload
                matches RecordPayload::Empty),
        ensures
            final(self).wf(),
            final(self).file_id == old(self).file_id,
            final(self).buf_size == old(self).buf_size,
            final(self).state_word == old(self).state_word,
            final(self).records@ == old(self).records@.update(
                old(self).spec_record_index(spec_addr_offset(page_addr) as int),
                old(self).spec_record_at(spec_addr_offset(page_addr) as int).tombstoned(),
            ),
    {
        let (hi, lo) = split_page_addr(page_addr);
        proof {
            lemma_addr_decompose(hi, lo);
        }
        let i = self.find_record(lo);
        let ghost pre = *self;
        let rec = vstd::std_specs::vec::vec_index_mut(&mut self.records, i);
        rec.header.flags = rec.header.flags | FLAG_TOMBSTONE;
        proof {
            let idx = i as int;
            assert(self.records@ =~= pre.records@.update(idx, pre.records@[idx].tombstoned()));
            assert((1u32 | 0x80u32 == 0x81u32) && (0x81u32 | 0x80u32 == 0x81u32) && (2u32 | 0x80u32
                == 0x82u32) && (0x82u32 | 0x80u32 == 0x82u32) && (1u32 | 0x80u32 == 1u32
                | 0x80u32)) by (bit_vector);
            assert(FLAG_NORMAL_PAGE | FLAG_TOMBSTONE == 0x81u32 && FLAG_DELETED_PAGES
                | FLAG_TOMBSTONE == 0x82u32) by (bit_vector);
            assert(pre.records@[idx].wf());
            assert(self.records@[idx].wf());
            Self::lemma_wf_update(pre, *self, idx);
        }
    }

    /// Replace the payload of the page record at `page_addr` with
    /// `data`. This is the write access that the allocator's caller
    /// has to the page region it was handed.
    #[verifier::rlimit(100)]
    #[verifier::spinoff_prover]
    pub fn write_page(&mut self, page_addr: u64, data: Vec<u8>)
        requires
            old(self).wf(),
            spec_addr_file_id(page_addr) == old(self).file_id,
            old(self).spec_has_record_at(spec_addr_offset(page_addr) as int),
            old(self).spec_record_at(spec_addr_offset(page_addr) as int).header.flags
                == FLAG_NORMAL_PAGE,
            data@.len() == old(self).spec_record_at(
                spec_addr_offset(page_addr) as int,
            ).header.page_size,
        ensures
            final(self).wf(),
            final(self).file_id == old(self).file_id,
            final(self).buf_size == old(self).buf_size,
            final(self).state_word == old(self).state_word,
            final(self).records@.len() == old(self).records@.len(),
            final(self).records@ == old(self).records@.update(
                old(self).spec_record_index(spec_addr_offset(page_addr) as int),
                (Record {
                    payload: RecordPayload::Page(data),
                    ..old(self).spec_record_at(spec_addr_offset(page_addr) as int)
                }),
            ),
    {
        let (hi, lo) = split_page_addr(page_addr);
        proof {
            lemma_addr_decompose(hi, lo);
        }
        let i = self.find_record(lo);
        let ghost pre = *self;
        let rec = vstd::std_specs::vec::vec_index_mut(&mut self.records, i);
        rec.payload = RecordPayload::Page(data);
        proof {
            let idx = i as int;
            assert(self.records@ =~= pre.records@.update(
                idx,
                (Record { payload: self.records@[idx].payload, ..pre.records@[idx] }),
            ));
            Self::lemma_wf_update(pre, *self, idx);
        }
    }

    /// The bytes of the page record whose payload `page_addr` names.
    pub open spec fn spec_page_bytes(self, payload_off: int) -> Seq<u8> {
        match self.spec_record_at(payload_off).payload {
            RecordPayload::Page(b) => b@,
            RecordPayload::DeletedPages(v) => Seq::empty(),
            RecordPayload::Empty => Seq::empty(),
        }
    }

    /// The payload region of the page record at `page_addr`: the same
    /// byte region the allocator handed out for that address.
    #[verifier::rlimit(100)]
    #[verifier::spinoff_prover]
    pub fn page(&self, page_addr: u64) -> (p: &Vec<u8>)
        requires
            self.wf(),
            spec_addr_file_id(page_addr) == self.file_id,
            self.spec_has_record_at(spec_addr_offset(page_addr) as int),
            self.spec_record_at(spec_addr_offset(page_addr) as int).header.flags
                == FLAG_NORMAL_PAGE,
        ensures
            p@ == self.spec_page_bytes(spec_addr_offset(page_addr) as int),
    {
        let (hi, lo) = split_page_addr(page_addr);
        proof {
            lemma_addr_decompose(hi, lo);
        }
        let i = self.find_record(lo);
        proof {
            lemma_flag_values();
            assert(spec_addr_offset(page_addr) == lo);
            assert(self.spec_record_at(lo as int) == self.records@[i as int]);
            assert(self.records@[i as int].wf());
            assert(self.records@[i as int].header.flags == FLAG_NORMAL_PAGE);
        }
        match &self.records[i].payload {
            RecordPayload::Page(b) => {
                proof {
                    assert(self.records@[i as int].payload == RecordPayload::Page(*b));
                    assert(self.spec_page_bytes(lo as int) == b@);
                    assert(self.spec_page_bytes(spec_addr_offset(page_addr) as int) == b@);
                }
                b
            },
            RecordPayload::DeletedPages(v) => {
                proof {
                    assert(self.records@[i as int].payload == RecordPayload::DeletedPages(*v));
                    assert(false);
                }
                vstd::pervasive::unreached()
            },
            RecordPayload::Empty => {
                proof {
                    assert(self.records@[i as int].payload == RecordPayload::Empty);
                    assert(false);
                }
                vstd::pervasive::unreached()
            },
        }
    }
}



/// A reference to the ids held by a deleted-pages record.
pub struct DeletedPagesRecordRef {
    /// The deleted page ids, in record order.
    pub deleted_pages: Vec<u64>,
}

impl DeletedPagesRecordRef {
    /// The deleted page ids, in record order.
    pub fn as_slice(&self) -> (s: &[u64])
        ensures
            s@ == self.deleted_pages@,
    {
        self.deleted_pages.as_slice()
    }
}

/// The payload of an emitted record: a page or a list of deleted
/// page ids.
pub enum RecordRef {
    /// The bytes of a page payload.
    Page(Vec<u8>),
    /// The ids of deleted pages.
    DeletedPages(DeletedPagesRecordRef),
}

/// The records a full iteration pass emits, in install order: exactly
/// the page and deleted-page records that carry no tombstone.
pub open spec fn spec_emitted(records: Seq<Record>) -> Seq<Record>
    decreases records.len(),
{
    if records.len() == 0 {
        Seq::empty()
    } else {
        spec_emitted(records.drop_last()) + (if records.last().emitted() {
            seq![records.last()]
        } else {
            Seq::empty()
        })
    }
}

/// Whether one emitted entry presents the given record: its address
/// names the record's payload in the owning file, its header is the
/// record's, and its payload bytes or ids are the record's.
pub open spec fn spec_entry_matches(file_id: u32, r: Record, e: (u64, RecordHeader, RecordRef)) -> bool {
    &&& e.0 == spec_page_addr(file_id, (r.offset + 16) as u32)
    &&& e.1 == r.header
    &&& match (r.payload, e.2) {
        (RecordPayload::Page(b), RecordRef::Page(c)) => c@ == b@,
        (RecordPayload::DeletedPages(v), RecordRef::DeletedPages(d)) => d.deleted_pages@ == v@,
        _ => false,
    }
}

impl WriteBuffer {
    /// Walk the arena from the front and return every record that is
    /// neither empty nor tombstoned, oldest first, each as its page
    /// address, its header, and its payload. The buffer must be
    /// flushable: sealed, with every writer released.
    pub fn iter(&self) -> (out: Vec<(u64, RecordHeader, RecordRef)>)
        requires
            self.wf(),
            self.st().spec_is_flushable(),
        ensures
            out@.len() == spec_emitted(self.records@).len(),
            forall|k: int|
                0 <= k < out@.len() ==> spec_entry_matches(
                    self.file_id,
                    spec_emitted(self.records@)[k],
                    #[trigger] out@[k],
                ),
    {
        let n = self.records.len();
        let mut out: Vec<(u64, RecordHeader, RecordRef)> = Vec::new();
        let mut i: usize = 0;
        while i < n
            invariant
                self.wf(),
                n == self.records@.len(),
                i <= n,
                out@.len() == spec_emitted(self.records@.take(i as int)).len(),
                forall|k: int|
                    0 <= k < out@.len() ==> spec_entry_matches(
                        self.file_id,
                        spec_emitted(self.records@.take(i as int))[k],
                        #[trigger] out@[k],
                    ),
            decreases n - i,
        {
            let ghost prefix = self.records@.take(i as int);
            let ghost prefix1 = self.records@.take(i as int + 1);
            proof {
                assert(prefix1.drop_last() =~= prefix);
                assert(prefix1.last() == self.records@[i as int]);
                lemma_record_size_bounds(self.records@[i as int].header.page_size as int);
                assert(self.records@[i as int].end() <= self.st().allocated);
                lemma_flag_values();
                assert(self.records@[i as int].wf());
            }
            let rec = &self.records[i];
            let flags = rec.header.flags;
            if flags == FLAG_NORMAL_PAGE || flags == FLAG_DELETED_PAGES {
                let addr = make_page_addr(self.file_id, rec.offset + HEADER_SIZE);
                let rref = match &rec.payload {
                    RecordPayload::Page(b) => {
                        let c = b.clone();
                        proof {
                            assert(c@ =~= b@);
                        }
                        RecordRef::Page(c)
                    },
                    RecordPayload::DeletedPages(v) => {
                        let d = v.clone();
                        proof {
                            assert(d@ =~= v@);
                        }
                        RecordRef::DeletedPages(DeletedPagesRecordRef { deleted_pages: d })
                    },
                    RecordPayload::Empty => vstd::pervasive::unreached(),
                };
                out.push((addr, rec.header, rref));
            }
            i = i + 1;
        }
        proof {
            assert(self.records@.take(n as int) =~= self.records@);
        }
        out
    }

    /// Law: the allocated watermark of a well-formed write buffer
    /// never exceeds its capacity and is always word-aligned.
    pub proof fn lemma_allocated_bounded(self)
        requires
            self.wf(),
        ensures
            self.st().allocated <= self.buf_size,
            self.st().allocated % 8 == 0,
    {
    }

    /// Law: a page address handed out by the page allocator resolves,
    /// before any tombstoning, to exactly the payload region the
    /// allocator created for it.
    pub proof fn lemma_page_addr_roundtrip(self, i: int)
        requires
            self.wf(),
            0 <= i < self.records@.len(),
            self.records@[i].header.flags == FLAG_NORMAL_PAGE,
        ensures
            self.spec_has_record_at(self.records@[i].payload_offset()),
            self.spec_record_at(self.records@[i].payload_offset()) == self.records@[i],
            self.records@[i].payload matches RecordPayload::Page(b) && self.spec_page_bytes(
                self.records@[i].payload_offset(),
            ) == b@,
    {
        self.lemma_record_at_index(i);
        lemma_flag_values();
        assert(self.records@[i].wf());
    }
}



/// Total arena space of the first `n` entries of a batch's new-page
/// list.
pub open spec fn spec_prefix_need(list: Seq<(u64, u32)>, n: int) -> int
    decreases n,
{
    if n <= 0 {
        0
    } else {
        spec_prefix_need(list, n - 1) + spec_record_size(list[n - 1].1 as int)
    }
}

/// Total arena space a batch reserves: every new page record plus one
/// deleted-pages record (reserved even when no page is deleted).
pub open spec fn spec_batch_need(list: Seq<(u64, u32)>, deleted_len: int) -> int {
    spec_prefix_need(list, list.len() as int) + spec_record_size(8 * deleted_len)
}

/// Prefix needs are nonnegative, word-aligned, and monotone.
pub proof fn lemma_prefix_need_props(list: Seq<(u64, u32)>, n: int)
    requires
        0 <= n <= list.len(),
    ensures
        spec_prefix_need(list, n) >= 0,
        spec_prefix_need(list, n) % 8 == 0,
    decreases n,
{
    if n > 0 {
        lemma_prefix_need_props(list, n - 1);
        lemma_record_size_bounds(list[n - 1].1 as int);
    }
}

/// A longer prefix needs at least as much space, by at least sixteen
/// bytes per extra record.
pub proof fn lemma_prefix_need_mono(list: Seq<(u64, u32)>, i: int, j: int)
    requires
        0 <= i <= j <= list.len(),
    ensures
        spec_prefix_need(list, i) <= spec_prefix_need(list, j),
    decreases j - i,
{
    if i < j {
        lemma_prefix_need_mono(list, i, j - 1);
        lemma_record_size_bounds(list[j - 1].1 as int);
    }
}

/// One more entry adds exactly its record's space.
pub proof fn lemma_prefix_need_step(list: Seq<(u64, u32)>, k: int)
    requires
        0 <= k < list.len(),
    ensures
        spec_prefix_need(list, k + 1) == spec_prefix_need(list, k) + spec_record_size(
            list[k].1 as int,
        ),
{
}

/// Whether `rec` is the `j`-th page record of a batch whose
/// reservation began at `offset0`: a zeroed page payload under a
/// `FLAG_NORMAL_PAGE` header at the batch's `j`-th offset.
pub open spec fn spec_batch_page_record(
    list: Seq<(u64, u32)>,
    offset0: int,
    j: int,
    rec: Record,
) -> bool {
    &&& rec.offset == offset0 + spec_prefix_need(list, j)
    &&& rec.header == (RecordHeader {
        page_id: list[j].0,
        flags: FLAG_NORMAL_PAGE,
        page_size: list[j].1,
    })
    &&& (rec.payload matches RecordPayload::Page(b) && b@.len() == list[j].1 && (forall|m: int|
        0 <= m < b@.len() ==> b@[m] == 0))
}

/// The first `k` page records of a batch are in place in `records`,
/// starting at index `base`.
pub open spec fn spec_batch_records_ok(
    list: Seq<(u64, u32)>,
    offset0: int,
    records: Seq<Record>,
    base: int,
    k: int,
) -> bool
    decreases k,
{
    k <= 0 || (spec_batch_records_ok(list, offset0, records, base, k - 1) && 0 <= base + k - 1
        < records.len() && spec_batch_page_record(list, offset0, k - 1, records[base + k - 1]))
}

/// The first `k` returned addresses of a batch name its page records.
pub open spec fn spec_batch_addrs_ok(
    file_id: u32,
    list: Seq<(u64, u32)>,
    offset0: int,
    addrs: Seq<u64>,
    k: int,
) -> bool
    decreases k,
{
    k <= 0 || (spec_batch_addrs_ok(file_id, list, offset0, addrs, k - 1) && 0 <= k - 1
        < addrs.len() && addrs[k - 1] == spec_page_addr(
        file_id,
        (offset0 + spec_prefix_need(list, k - 1) + 16) as u32,
    ))
}

/// Batch records stay in place when one more record is appended.
pub proof fn lemma_batch_records_ok_preserved(
    list: Seq<(u64, u32)>,
    offset0: int,
    r1: Seq<Record>,
    rec: Record,
    base: int,
    k: int,
)
    requires
        spec_batch_records_ok(list, offset0, r1, base, k),
        base >= 0,
        base + k <= r1.len(),
    ensures
        spec_batch_records_ok(list, offset0, r1.push(rec), base, k),
    decreases k,
{
    if k > 0 {
        lemma_batch_records_ok_preserved(list, offset0, r1, rec, base, k - 1);
        assert(r1.push(rec)[base + (k - 1)] == r1[base + (k - 1)]);
    }
}

/// Batch addresses stay in place when one more address is appended.
pub proof fn lemma_batch_addrs_ok_preserved(
    file_id: u32,
    list: Seq<(u64, u32)>,
    offset0: int,
    a1: Seq<u64>,
    a: u64,
    k: int,
)
    requires
        spec_batch_addrs_ok(file_id, list, offset0, a1, k),
        k <= a1.len(),
    ensures
        spec_batch_addrs_ok(file_id, list, offset0, a1.push(a), k),
    decreases k,
{
    if k > 0 {
        lemma_batch_addrs_ok_preserved(file_id, list, offset0, a1, a, k - 1);
        assert(a1.push(a)[k - 1] == a1[k - 1]);
    }
}

/// The in-place form of the batch invariants, index by index.
pub proof fn lemma_batch_ok_all(
    file_id: u32,
    list: Seq<(u64, u32)>,
    offset0: int,
    records: Seq<Record>,
    addrs: Seq<u64>,
    base: int,
    k: int,
)
    requires
        spec_batch_records_ok(list, offset0, records, base, k),
        spec_batch_addrs_ok(file_id, list, offset0, addrs, k),
    ensures
        forall|j: int|
            0 <= j < k ==> base + j < records.len() && spec_batch_page_record(
                list,
                offset0,
                j,
                #[trigger] records[base + j],
            ),
        forall|j: int|
            0 <= j < k ==> j < addrs.len() && #[trigger] addrs[j] == spec_page_addr(
                file_id,
                (offset0 + spec_prefix_need(list, j) + 16) as u32,
            ),
    decreases k,
{
    if k > 0 {
        lemma_batch_ok_all(file_id, list, offset0, records, addrs, base, k - 1);
    }
}

impl WriteBuffer {
    /// Append one zeroed page record at `offset`, inside space that
    /// is already reserved. Returns the record's page address.
    #[verifier::rlimit(100)]
    #[verifier::spinoff_prover]
    fn push_one_page(&mut self, page_id: u64, page_size: u32, offset: u32) -> (addr: u64)
        requires
            old(self).wf(),
            old(self).records_end() <= offset as int,
            offset % 8 == 0,
            offset as int + spec_record_size(page_size as int) <= old(self).st().allocated,
        ensures
            final(self).wf(),
            final(self).file_id == old(self).file_id,
            final(self).buf_size == old(self).buf_size,
            final(self).state_word == old(self).state_word,
            final(self).records@.len() == old(self).records@.len() + 1,
            forall|j: int|
                0 <= j < old(self).records@.len() ==> final(self).records@[j]
                    == old(self).records@[j],
            final(self).records@.last().offset == offset,
            final(self).records@.last().header == (RecordHeader {
                page_id,
                flags: FLAG_NORMAL_PAGE,
                page_size,
            }),
            (final(self).records@.last().payload matches RecordPayload::Page(b) && b@.len()
                == page_size && (forall|m: int| 0 <= m < b@.len() ==> b@[m] == 0)),
            addr == spec_page_addr(old(self).file_id, (offset + 16) as u32),
            final(self).records_end() == offset + spec_record_size(page_size as int),
    {
        proof {
            lemma_record_size_bounds(page_size as int);
        }
        let payload = zero_page(page_size);
        let ghost pre = *self;
        self.records.push(
            Record {
                offset,
                header: RecordHeader { page_id, flags: FLAG_NORMAL_PAGE, page_size },
                payload: RecordPayload::Page(payload),
            },
        );
        proof {
            Self::lemma_wf_push(pre, *self);
        }
        make_page_addr(self.file_id, offset + HEADER_SIZE)
    }

    /// Append one page record per list entry, at consecutive offsets
    /// from `offset0`, inside a reservation of `need` bytes whose
    /// tail is kept for a deleted-pages record of `deleted_size`
    /// payload bytes. Returns the page address of each record.
    #[verifier::rlimit(100)]
    #[verifier::spinoff_prover]
    fn push_batch_pages(
        &mut self,
        new_page_list: &Vec<(u64, u32)>,
        deleted_size: u32,
        need: u32,
        offset0: u32,
    ) -> (addrs: Vec<u64>)
        requires
            old(self).wf(),
            need as int == spec_record_size(deleted_size as int) + spec_prefix_need(
                new_page_list@,
                new_page_list@.len() as int,
            ),
            offset0 as int + need as int == old(self).st().allocated,
            offset0 % 8 == 0,
            old(self).records_end() <= offset0,
        ensures
            final(self).wf(),
            final(self).file_id == old(self).file_id,
            final(self).buf_size == old(self).buf_size,
            final(self).state_word == old(self).state_word,
            final(self).records@.len() == old(self).records@.len() + new_page_list@.len(),
            forall|j: int|
                0 <= j < old(self).records@.len() ==> final(self).records@[j]
                    == old(self).records@[j],
            forall|j: int|
                0 <= j < new_page_list@.len() ==> spec_batch_page_record(
                    new_page_list@,
                    offset0 as int,
                    j,
                    #[trigger] final(self).records@[old(self).records@.len() + j],
                ),
            addrs@.len() == new_page_list@.len(),
            forall|j: int|
                0 <= j < new_page_list@.len() ==> #[trigger] addrs@[j] == spec_page_addr(
                    old(self).file_id,
                    (offset0 + spec_prefix_need(new_page_list@, j) + 16) as u32,
                ),
            final(self).records_end() <= offset0 + spec_prefix_need(
                new_page_list@,
                new_page_list@.len() as int,
            ),
    {
        let ghost list = new_page_list@;
        let ghost base = old(self).records@.len() as int;
        let n = new_page_list.len();
        proof {
            lemma_record_size_bounds(deleted_size as int);
            lemma_prefix_need_props(list, list.len() as int);
        }
        let mut addrs: Vec<u64> = Vec::new();
        let mut offset: u32 = offset0;
        let mut k: usize = 0;
        while k < n
            invariant
                self.wf(),
                k <= n,
                n == list.len(),
                list == new_page_list@,
                self.buf_size == old(self).buf_size,
                self.file_id == old(self).file_id,
                self.state_word == old(self).state_word,
                need as int == spec_record_size(deleted_size as int) + spec_prefix_need(
                    list,
                    list.len() as int,
                ),
                spec_record_size(deleted_size as int) >= 16,
                offset0 as int + need as int == self.st().allocated,
                offset as int == offset0 + spec_prefix_need(list, k as int),
                offset % 8 == 0,
                base == old(self).records@.len(),
                self.records@.len() == base + k,
                self.records_end() <= offset,
                forall|j: int| 0 <= j < base ==> self.records@[j] == old(self).records@[j],
                spec_batch_records_ok(list, offset0 as int, self.records@, base, k as int),
                addrs@.len() == k,
                spec_batch_addrs_ok(old(self).file_id, list, offset0 as int, addrs@, k as int),
            decreases n - k,
        {
            let pid = new_page_list[k].0;
            let psz = new_page_list[k].1;
            proof {
                lemma_prefix_need_props(list, k as int);
                lemma_prefix_need_step(list, k as int);
                lemma_prefix_need_mono(list, k as int + 1, list.len() as int);
                lemma_record_size_bounds(psz as int);
                assert(offset + spec_record_size(psz as int) <= self.st().allocated - 16);
            }
            let rs_k = record_size(psz);
            let ghost pre = *self;
            let ghost addrs_pre = addrs@;
            let addr = self.push_one_page(pid, psz, offset);
            addrs.push(addr);
            proof {
                let kk = k as int;
                lemma_batch_records_ok_preserved(
                    list,
                    offset0 as int,
                    pre.records@,
                    self.records@.last(),
                    base,
                    kk,
                );
                assert(self.records@ =~= pre.records@.push(self.records@.last()));
                assert(spec_batch_page_record(list, offset0 as int, kk, self.records@[base + kk]));
                assert(spec_batch_records_ok(list, offset0 as int, self.records@, base, kk + 1));
                lemma_batch_addrs_ok_preserved(
                    old(self).file_id,
                    list,
                    offset0 as int,
                    addrs_pre,
                    addr,
                    kk,
                );
                assert(addrs@ =~= addrs_pre.push(addr));
                assert(spec_batch_addrs_ok(
                    old(self).file_id,
                    list,
                    offset0 as int,
                    addrs@,
                    kk + 1,
                ));
            }
            offset = offset + rs_k;
            k = k + 1;
        }
        proof {
            lemma_batch_ok_all(
                old(self).file_id,
                list,
                offset0 as int,
                self.records@,
                addrs@,
                base,
                n as int,
            );
        }
        addrs
    }
}

impl WriteBuffer {
    /// Append the tail record of a batch at `tail_offset`: a
    /// deleted-pages record when ids were deleted, else an empty
    /// record covering the reserved slot. Returns the record's page
    /// address when one was written.
    #[verifier::rlimit(100)]
    #[verifier::spinoff_prover]
    fn push_tail_record(
        &mut self,
        deleted_pages: &Vec<u64>,
        deleted_size: u32,
        tail_offset: u32,
    ) -> (d: Option<u64>)
        requires
            old(self).wf(),
            deleted_size == 8 * deleted_pages@.len(),
            old(self).records_end() <= tail_offset as int,
            tail_offset % 8 == 0,
            tail_offset as int + spec_record_size(deleted_size as int) <= old(
                self,
            ).st().allocated,
        ensures
            final(self).wf(),
            final(self).file_id == old(self).file_id,
            final(self).buf_size == old(self).buf_size,
            final(self).state_word == old(self).state_word,
            final(self).records@.len() == old(self).records@.len() + 1,
            forall|j: int|
                0 <= j < old(self).records@.len() ==> final(self).records@[j]
                    == old(self).records@[j],
            final(self).records@.last().offset == tail_offset,
            deleted_pages@.len() > 0 ==> ({
                &&& final(self).records@.last().header == (RecordHeader {
                    page_id: 0,
                    flags: FLAG_DELETED_PAGES,
                    page_size: deleted_size,
                })
                &&& (final(self).records@.last().payload matches RecordPayload::DeletedPages(v)
                    && v@ == deleted_pages@)
                &&& d == Some(spec_page_addr(old(self).file_id, (tail_offset + 16) as u32))
            }),
            deleted_pages@.len() == 0 ==> ({
                &&& final(self).records@.last().header == (RecordHeader {
                    page_id: 0,
                    flags: FLAG_EMPTY,
                    page_size: 0,
                })
                &&& final(self).records@.last().payload == RecordPayload::Empty
                &&& d == Option::<u64>::None
            }),
    {
        proof {
            lemma_record_size_bounds(deleted_size as int);
        }
        if deleted_pages.len() > 0 {
            let body = deleted_pages.clone();
            proof {
                assert(body@ =~= deleted_pages@);
            }
            let ghost pre = *self;
            self.records.push(
                Record {
                    offset: tail_offset,
                    header: RecordHeader {
                        page_id: 0,
                        flags: FLAG_DELETED_PAGES,
                        page_size: deleted_size,
                    },
                    payload: RecordPayload::DeletedPages(body),
                },
            );
            proof {
                Self::lemma_wf_push(pre, *self);
            }
            Some(make_page_addr(self.file_id, tail_offset + HEADER_SIZE))
        } else {
            proof {
                lemma_record_size_value(0);
            }
            let ghost pre = *self;
            self.records.push(
                Record {
                    offset: tail_offset,
                    header: RecordHeader { page_id: 0, flags: FLAG_EMPTY, page_size: 0 },
                    payload: RecordPayload::Empty,
                },
            );
            proof {
                Self::lemma_wf_push(pre, *self);
            }
            None
        }
    }

    /// Composing the page pushes with the tail push: records below
    /// `base` and the batch's page records stay in place.
    proof fn lemma_batch_compose(
        pre_records: Seq<Record>,
        mid_records: Seq<Record>,
        post_records: Seq<Record>,
        list: Seq<(u64, u32)>,
        offset0: int,
        base: int,
    )
        requires
            base == pre_records.len(),
            mid_records.len() == base + list.len(),
            forall|j: int| 0 <= j < base ==> #[trigger] mid_records[j] == pre_records[j],
            forall|j: int|
                0 <= j < list.len() ==> spec_batch_page_record(
                    list,
                    offset0,
                    j,
                    #[trigger] mid_records[base + j],
                ),
            post_records.len() == mid_records.len() + 1,
            forall|j: int|
                0 <= j < mid_records.len() ==> #[trigger] post_records[j] == mid_records[j],
        ensures
            forall|j: int| 0 <= j < base ==> #[trigger] post_records[j] == pre_records[j],
            forall|j: int|
                0 <= j < list.len() ==> spec_batch_page_record(
                    list,
                    offset0,
                    j,
                    #[trigger] post_records[base + j],
                ),
    {
        assert forall|j: int| 0 <= j < base implies #[trigger] post_records[j]
            == pre_records[j] by {
            assert(post_records[j] == mid_records[j]);
        }
        assert forall|j: int| 0 <= j < list.len() implies spec_batch_page_record(
            list,
            offset0,
            j,
            #[trigger] post_records[base + j],
        ) by {
            assert(post_records[base + j] == mid_records[base + j]);
            assert(spec_batch_page_record(list, offset0, j, mid_records[base + j]));
        }
    }

    /// Total the space a batch needs: every page record plus the
    /// deleted-pages record. `Again` when it cannot fit the buffer.
    #[verifier::rlimit(100)]
    #[verifier::spinoff_prover]
    fn compute_batch_need(&self, new_page_list: &Vec<(u64, u32)>, deleted_size: u32) -> (r: Result<
        u32,
        Error,
    >)
        requires
            self.wf(),
            spec_record_size(deleted_size as int) <= self.buf_size,
        ensures
            r matches Ok(need) ==> need as int == spec_record_size(deleted_size as int)
                + spec_prefix_need(new_page_list@, new_page_list@.len() as int) && need
                <= self.buf_size,
            r is Err ==> r == Result::<u32, Error>::Err(Error::Again) && spec_record_size(
                deleted_size as int,
            ) + spec_prefix_need(new_page_list@, new_page_list@.len() as int) > self.buf_size,
    {
        let ghost list = new_page_list@;
        let n = new_page_list.len();
        proof {
            lemma_record_size_bounds(deleted_size as int);
        }
        let mut need64: u64 = record_size(deleted_size) as u64;
        let mut k: usize = 0;
        while k < n
            invariant
                k <= n,
                n == list.len(),
                list == new_page_list@,
                need64 as int == spec_record_size(deleted_size as int) + spec_prefix_need(
                    list,
                    k as int,
                ),
                need64 <= self.buf_size,
                self.buf_size <= 0x8000_0000,
            decreases n - k,
        {
            let psz = new_page_list[k].1;
            let term: u64 = 16 + (((psz as u64) + 7) / 8) * 8;
            proof {
                lemma_record_size_value(psz as int);
                assert(term as int == spec_record_size(psz as int));
                lemma_prefix_need_step(list, k as int);
            }
            need64 = need64 + term;
            if need64 > (self.buf_size as u64) {
                proof {
                    lemma_prefix_need_mono(list, k as int + 1, list.len() as int);
                }
                return Err(Error::Again);
            }
            k = k + 1;
        }
        Ok(need64 as u32)
    }

    /// The successful arm of a batch: reserve the space and install
    /// every record. The caller has checked that the buffer is open
    /// and the batch fits.
    #[verifier::rlimit(100)]
    #[verifier::spinoff_prover]
    fn batch_install(
        &mut self,
        new_page_list: &Vec<(u64, u32)>,
        deleted_pages: &Vec<u64>,
        deleted_size: u32,
        need: u32,
    ) -> (r: (Vec<u64>, Option<u64>))
        requires
            old(self).wf(),
            old(self).st().num_writer < 0x7FFF_FFFF,
            !old(self).st().sealed,
            deleted_size == 8 * deleted_pages@.len(),
            need as int == spec_batch_need(new_page_list@, deleted_pages@.len() as int),
            old(self).st().allocated + need <= old(self).buf_size,
        ensures
            final(self).wf(),
            final(self).file_id == old(self).file_id,
            final(self).buf_size == old(self).buf_size,
            spec_writer_step(old(self).st(), final(self).st()),
            r.0@.len() == new_page_list@.len(),
            forall|k: int|
                0 <= k < new_page_list@.len() ==> #[trigger] r.0@[k] == spec_page_addr(
                    old(self).file_id,
                    (old(self).st().allocated + spec_prefix_need(new_page_list@, k) + 16) as u32,
                ),
            final(self).records@.len() == old(self).records@.len() + new_page_list@.len() + 1,
            forall|k: int|
                0 <= k < old(self).records@.len() ==> #[trigger] final(self).records@[k] == old(
                    self,
                ).records@[k],
            forall|k: int|
                0 <= k < new_page_list@.len() ==> spec_batch_page_record(
                    new_page_list@,
                    old(self).st().allocated as int,
                    k,
                    #[trigger] final(self).records@[old(self).records@.len() + k],
                ),
            final(self).records@.last().offset == old(self).st().allocated + spec_prefix_need(
                new_page_list@,
                new_page_list@.len() as int,
            ),
            deleted_pages@.len() > 0 ==> ({
                &&& final(self).records@.last().header == (RecordHeader {
                    page_id: 0,
                    flags: FLAG_DELETED_PAGES,
                    page_size: deleted_size,
                })
                &&& (final(self).records@.last().payload matches RecordPayload::DeletedPages(v)
                    && v@ == deleted_pages@)
                &&& r.1 == Some(
                    spec_page_addr(
                        old(self).file_id,
                        (final(self).records@.last().offset + 16) as u32,
                    ),
                )
            }),
            deleted_pages@.len() == 0 ==> ({
                &&& final(self).records@.last().header == (RecordHeader {
                    page_id: 0,
                    flags: FLAG_EMPTY,
                    page_size: 0,
                })
                &&& final(self).records@.last().payload == RecordPayload::Empty
                &&& r.1 == Option::<u64>::None
            }),
            final(self).st().sealed == false,
            final(self).st().num_writer == old(self).st().num_writer + 1,
            final(self).st().allocated == old(self).st().allocated + need,
    {
        let ghost list = new_page_list@;
        let ghost dlen = deleted_pages@.len() as int;
        proof {
            lemma_prefix_need_props(list, list.len() as int);
            lemma_record_size_bounds(deleted_size as int);
            lemma_round_align_aligned(need as int);
        }
        let offset0 = match self.alloc_size(need, true) {
            Ok(o) => o,
            Err(e) => vstd::pervasive::unreached(),
        };
        let ghost alloc0 = old(self).st().allocated as int;
        let ghost base = old(self).records@.len() as int;
        proof {
            old(self).lemma_records_end_within();
        }
        let addrs = self.push_batch_pages(new_page_list, deleted_size, need, offset0);
        let tail_offset = offset0 + (need - record_size(deleted_size));
        let ghost mid = *self;
        proof {
            assert(tail_offset as int == alloc0 + spec_prefix_need(list, list.len() as int));
        }
        let d = self.push_tail_record(deleted_pages, deleted_size, tail_offset);
        proof {
            Self::lemma_batch_compose(
                old(self).records@,
                mid.records@,
                self.records@,
                list,
                alloc0,
                base,
            );
        }
        (addrs, d)
    }

    /// Install new pages and record deleted pages in one batch, under
    /// a single writer slot and a single contiguous reservation.
    /// Returns the page address of each new page record, in list
    /// order, and the address of the deleted-pages record when
    /// `deleted_pages` is not empty; tombstone a record through its
    /// address to cancel it, and fill pages through `write_page`.
    /// Fails with `Again` when the buffer is sealed or the batch does
    /// not fit.
    #[verifier::rlimit(100)]
    #[verifier::spinoff_prover]
    pub fn batch(&mut self, new_page_list: &Vec<(u64, u32)>, deleted_pages: &Vec<u64>) -> (r:
        Result<(Vec<u64>, Option<u64>), Error>)
        requires
            old(self).wf(),
            old(self).st().num_writer < 0x7FFF_FFFF,
        ensures
            final(self).wf(),
            final(self).file_id == old(self).file_id,
            final(self).buf_size == old(self).buf_size,
            spec_writer_step(old(self).st(), final(self).st()),
            old(self).st().sealed || old(self).st().allocated + spec_batch_need(
                new_page_list@,
                deleted_pages@.len() as int,
            ) > old(self).buf_size ==> r == Result::<(Vec<u64>, Option<u64>), Error>::Err(
                Error::Again,
            ) && *final(self) == *old(self),
            !old(self).st().sealed && old(self).st().allocated + spec_batch_need(
                new_page_list@,
                deleted_pages@.len() as int,
            ) <= old(self).buf_size ==> ({
                &&& r matches Result::Ok(rr)
                &&& rr.0@.len() == new_page_list@.len()
                &&& (forall|k: int|
                    0 <= k < new_page_list@.len() ==> #[trigger] rr.0@[k] == spec_page_addr(
                        old(self).file_id,
                        (old(self).st().allocated + spec_prefix_need(new_page_list@, k)
                            + 16) as u32,
                    ))
                &&& final(self).records@.len() == old(self).records@.len()
                    + new_page_list@.len() + 1
                &&& (forall|k: int|
                    0 <= k < old(self).records@.len() ==> #[trigger] final(self).records@[k]
                        == old(self).records@[k])
                &&& (forall|k: int|
                    0 <= k < new_page_list@.len() ==> spec_batch_page_record(
                        new_page_list@,
                        old(self).st().allocated as int,
                        k,
                        #[trigger] final(self).records@[old(self).records@.len() + k],
                    ))
                &&& final(self).records@.last().offset == old(self).st().allocated
                    + spec_prefix_need(new_page_list@, new_page_list@.len() as int)
                &&& (deleted_pages@.len() > 0 ==> ({
                    &&& final(self).records@.last().header == (RecordHeader {
                        page_id: 0,
                        flags: FLAG_DELETED_PAGES,
                        page_size: (8 * deleted_pages@.len()) as u32,
                    })
                    &&& (final(self).records@.last().payload
                        matches RecordPayload::DeletedPages(v) && v@ == deleted_pages@)
                    &&& rr.1 == Some(
                        spec_page_addr(
                            old(self).file_id,
                            (final(self).records@.last().offset + 16) as u32,
                        ),
                    )
                }))
                &&& (deleted_pages@.len() == 0 ==> ({
                    &&& final(self).records@.last().header == (RecordHeader {
                        page_id: 0,
                        flags: FLAG_EMPTY,
                        page_size: 0,
                    })
                    &&& final(self).records@.last().payload == RecordPayload::Empty
                    &&& rr.1 == Option::<u64>::None
                }))
                &&& final(self).st().sealed == false
                &&& final(self).st().num_writer == old(self).st().num_writer + 1
                &&& final(self).st().allocated == old(self).st().allocated + spec_batch_need(
                    new_page_list@,
                    deleted_pages@.len() as int,
                )
            }),
    {
        let ghost list = new_page_list@;
        let ghost dlen = deleted_pages@.len() as int;
        proof {
            lemma_record_size_bounds(8 * dlen);
            lemma_prefix_need_props(list, list.len() as int);
        }
        if self.is_sealed() {
            return Err(Error::Again);
        }
        if deleted_pages.len() >= (self.buf_size / 8) as usize {
            return Err(Error::Again);
        }
        let deleted_size: u32 = (deleted_pages.len() as u32) * 8;
        proof {
            lemma_record_size_bounds(deleted_size as int);
            lemma_record_size_value(deleted_size as int);
        }
        if record_size(deleted_size) > self.buf_size {
            return Err(Error::Again);
        }
        let need = match self.compute_batch_need(new_page_list, deleted_size) {
            Ok(v) => v,
            Err(e) => {
                return Err(e);
            },
        };
        let state = self.buffer_state();
        if need > self.buf_size - state.allocated {
            return Err(Error::Again);
        }
        let rr = self.batch_install(new_page_list, deleted_pages, deleted_size, need);
        Ok(rr)
    }
}



impl Record {
    /// Whether `other` carries the same record: equal offset and
    /// header, and payloads with equal contents.
    pub open spec fn like(self, other: Record) -> bool {
        &&& self.offset == other.offset
        &&& self.header == other.header
        &&& match (self.payload, other.payload) {
            (RecordPayload::Page(a), RecordPayload::Page(b)) => a@ == b@,
            (RecordPayload::DeletedPages(a), RecordPayload::DeletedPages(b)) => a@ == b@,
            (RecordPayload::Empty, RecordPayload::Empty) => true,
            _ => false,
        }
    }
}

impl Clone for Record {
    /// A deep copy: same offset, header, and payload contents.
    fn clone(&self) -> (r: Self)
        ensures
            self.like(r),
    {
        let payload = match &self.payload {
            RecordPayload::Page(b) => {
                let c = b.clone();
                proof {
                    assert(c@ =~= b@);
                }
                RecordPayload::Page(c)
            },
            RecordPayload::DeletedPages(v) => {
                let c = v.clone();
                proof {
                    assert(c@ =~= v@);
                }
                RecordPayload::DeletedPages(c)
            },
            RecordPayload::Empty => RecordPayload::Empty,
        };
        Record { offset: self.offset, header: self.header, payload }
    }
}

impl WriteBuffer {
    /// Whether `other` carries the same buffer: equal plain fields
    /// and records with the same contents.
    pub open spec fn like(self, other: WriteBuffer) -> bool {
        &&& self.file_id == other.file_id
        &&& self.buf_size == other.buf_size
        &&& self.state_word == other.state_word
        &&& self.records@.len() == other.records@.len()
        &&& (forall|i: int|
            0 <= i < self.records@.len() ==> (#[trigger] self.records@[i]).like(other.records@[i]))
    }

    /// Records with the same contents are well formed together.
    pub proof fn lemma_like_preserves_wf(self, other: WriteBuffer)
        requires
            self.wf(),
            self.like(other),
        ensures
            other.wf(),
    {
        assert forall|i: int| 0 <= i < other.records@.len() implies (
        #[trigger] other.records@[i]).wf() by {
            assert(self.records@[i].wf());
            assert(self.records@[i].like(other.records@[i]));
        }
        assert forall|i: int| 0 <= i < other.records@.len() implies (
        #[trigger] other.records@[i]).offset % 8 == 0 by {
            assert(self.records@[i].like(other.records@[i]));
        }
        assert forall|i: int|
            0 <= i && i + 1 < other.records@.len() implies (#[trigger] other.records@[i]).end()
            <= other.records@[i + 1].offset by {
            assert(self.records@[i].like(other.records@[i]));
            assert(self.records@[i + 1].like(other.records@[i + 1]));
            assert(self.records@[i].end() <= self.records@[i + 1].offset);
        }
        assert forall|i: int| 0 <= i < other.records@.len() implies (
        #[trigger] other.records@[i]).end() <= other.st().allocated by {
            assert(self.records@[i].like(other.records@[i]));
            assert(self.records@[i].end() <= self.st().allocated);
        }
    }
}

impl Clone for WriteBuffer {
    /// A deep copy: same file id, capacity, state word, and records.
    fn clone(&self) -> (r: Self)
        ensures
            self.like(r),
    {
        let n = self.records.len();
        let mut records: Vec<Record> = Vec::new();
        let mut i: usize = 0;
        while i < n
            invariant
                i <= n,
                n == self.records@.len(),
                records@.len() == i,
                forall|j: int|
                    0 <= j < i ==> (#[trigger] self.records@[j]).like(records@[j]),
            decreases n - i,
        {
            let c = self.records[i].clone();
            records.push(c);
            i = i + 1;
        }
        WriteBuffer {
            file_id: self.file_id,
            buf_size: self.buf_size,
            state_word: self.state_word,
            records,
        }
    }
}


} // verus!
