//! Buffers in the memory that a binary shares with its host.
//!
//! A buffer is the length of its payload, four bytes, least significant first,
//! unused bytes up to [`HEADER`], and the payload.
use crate::meta;
use vstd::prelude::*;

verus! {

/// Alignment of every buffer, enough for every archived type.
pub const ALIGNMENT: usize = 16;

/// Where the payload starts in a buffer. A multiple of [`ALIGNMENT`], so that
/// an aligned buffer has an aligned payload.
pub const HEADER: usize = 16;

/// How much an output buffer holds behind its header.
pub const MAX_BUFFER_SIZE: usize = 524_288;

/// What a call tells its host.
#[derive(Clone, Copy, Debug, PartialEq, Eq, Structural)]
pub enum ErrorCode {
    /// All went well.
    Success,
    /// The arguments could not be read.
    UnarchivingError,
    /// The result could not be written.
    ArchivingError,
}

impl ErrorCode {
    /// The number that stands for the code.
    pub open spec fn number(self) -> u32 {
        match self {
            ErrorCode::Success => 0,
            ErrorCode::UnarchivingError => 254,
            ErrorCode::ArchivingError => 255,
        }
    }

    /// The number that stands for the code.
    pub fn code(self) -> (r: u32)
        ensures
            r == self.number(),
    {
        match self {
            ErrorCode::Success => 0,
            ErrorCode::UnarchivingError => 254,
            ErrorCode::ArchivingError => 255,
        }
    }
}

/// The length that the buffer at `ptr` states.
pub open spec fn stated_len(memory: Seq<u8>, ptr: int) -> nat {
    meta::le32(memory.subrange(ptr, ptr + 4))
}

/// The buffer at `ptr` lies within the memory.
pub open spec fn holds_buffer(memory: Seq<u8>, ptr: int) -> bool {
    0 <= ptr && ptr + HEADER + stated_len(memory, ptr) <= memory.len()
}

/// The payload of the buffer at `ptr`.
pub open spec fn payload(memory: Seq<u8>, ptr: int) -> Seq<u8> {
    memory.subrange(ptr + HEADER, ptr + HEADER + stated_len(memory, ptr))
}

/// `memory` with `len` stated in the buffer at `ptr`.
pub open spec fn with_len(memory: Seq<u8>, ptr: int, len: nat) -> Seq<u8> {
    memory.take(ptr) + meta::le32_bytes(len) + memory.skip(ptr + 4)
}

/// Different codes have different numbers, and only success is zero.
pub proof fn law_codes_are_distinct(a: ErrorCode, b: ErrorCode)
    ensures
        a.number() == b.number() <==> a == b,
        a.number() == 0 <==> a == ErrorCode::Success,
{
}

/// An aligned buffer has an aligned payload.
pub proof fn law_payload_is_aligned(ptr: nat)
    requires
        ptr % (ALIGNMENT as nat) == 0,
    ensures
        (ptr + HEADER) % (ALIGNMENT as int) == 0,
{
}

/// What lies behind the header of a buffer is its payload once its length is
/// stated, and nothing else in the memory changes.
pub proof fn law_buffer_is_read_back(memory: Seq<u8>, ptr: int, len: nat)
    requires
        0 <= ptr,
        len < 0x1_0000_0000,
        ptr + HEADER + len <= memory.len(),
    ensures
        holds_buffer(with_len(memory, ptr, len), ptr),
        payload(with_len(memory, ptr, len), ptr) == memory.subrange(
            ptr + HEADER,
            ptr + HEADER + len,
        ),
        with_len(memory, ptr, len).len() == memory.len(),
        forall|i: int|
            0 <= i < memory.len() && !(ptr <= i < ptr + 4) ==> (#[trigger] with_len(
                memory,
                ptr,
                len,
            )[i]) == memory[i],
{
    let after = with_len(memory, ptr, len);
    assert(after.subrange(ptr, ptr + 4) =~= meta::le32_bytes(len));
    meta::lemma_le32(len);
    assert(payload(after, ptr) =~= memory.subrange(ptr + HEADER, ptr + HEADER + len));
}

/// The memory after a call, and what the host is told: where the result was written
/// its length is stated, and all went well; where it did not fit all stays as it
/// was.
pub open spec fn ended(memory: Seq<u8>, out_ptr: int, written: Option<u32>) -> (Seq<u8>, u32) {
    match written {
        None => (memory, ErrorCode::ArchivingError.number()),
        Some(len) => (with_len(memory, out_ptr, len as nat), ErrorCode::Success.number()),
    }
}

/// After a call that went well the host is told zero and finds, as the payload of
/// the output buffer, what was written behind its header. After one that did not
/// it is told something else, and the memory is as it was.
pub proof fn law_host_finds_the_result(memory: Seq<u8>, out_ptr: int, len: u32)
    requires
        0 <= out_ptr,
        out_ptr + 16 + len <= memory.len(),
    ensures
        ended(memory, out_ptr, Some(len)).1 == 0,
        holds_buffer(ended(memory, out_ptr, Some(len)).0, out_ptr),
        payload(ended(memory, out_ptr, Some(len)).0, out_ptr) == memory.subrange(
            out_ptr + 16,
            out_ptr + 16 + len,
        ),
        forall|i: int|
            0 <= i < memory.len() && !(out_ptr <= i < out_ptr + 4) ==> (#[trigger] ended(
                memory,
                out_ptr,
                Some(len),
            ).0[i]) == memory[i],
        ended(memory, out_ptr, None).0 == memory,
        ended(memory, out_ptr, None).1 != 0,
{
    law_buffer_is_read_back(memory, out_ptr, len as nat);
}

/// The payload of the buffer at `ptr`.
pub fn read_buffer(memory: &[u8], ptr: usize) -> (r: &[u8])
    requires
        holds_buffer(memory@, ptr as int),
    ensures
        r@ == payload(memory@, ptr as int),
{
    let end: usize = memory.len();
    assert(ptr + HEADER <= end);
    let len: usize = meta::read_le32(memory, ptr) as usize;
    vstd::slice::slice_subrange(memory, ptr + HEADER, ptr + HEADER + len)
}

/// Is an archive at this address where it can be read in place? One that is not
/// has to be copied first.
pub fn is_aligned(addr: usize) -> (r: bool)
    ensures
        r == (addr % ALIGNMENT == 0),
{
    addr % ALIGNMENT == 0
}

/// What became of reading an archive.
pub fn unarchived<T>(value: Option<T>) -> (r: Result<T, ErrorCode>)
    ensures
        match value {
            Some(v) => r == Ok::<T, ErrorCode>(v),
            None => r == Err::<T, ErrorCode>(ErrorCode::UnarchivingError),
        },
{
    match value {
        Some(v) => Ok(v),
        None => Err(ErrorCode::UnarchivingError),
    }
}

/// Ends a call: writes the length of the result into the output buffer at
/// `out_ptr` and says what to tell the host. `written` is how much of a result
/// was written behind the header of the buffer, if it fitted there.
pub fn finish_call(memory: &mut [u8], out_ptr: usize, written: Option<u32>) -> (r: u32)
    requires
        out_ptr + HEADER <= old(memory)@.len(),
    ensures
        (final(memory)@, r) == ended(old(memory)@, out_ptr as int, written),
        match written {
            None => final(memory)@ == old(memory)@ && r == ErrorCode::ArchivingError.number(),
            Some(len) => final(memory)@ == with_len(old(memory)@, out_ptr as int, len as nat) && r
                == ErrorCode::Success.number(),
        },
{
    let end: usize = memory.len();
    assert(out_ptr + HEADER <= end);
    match written {
        Some(len) => {
            let bytes = meta::to_le32(len);
            memory[out_ptr] = bytes[0];
            memory[out_ptr + 1] = bytes[1];
            memory[out_ptr + 2] = bytes[2];
            memory[out_ptr + 3] = bytes[3];
            assert(memory@ =~= with_len(old(memory)@, out_ptr as int, len as nat));
            ErrorCode::Success.code()
        },
        None => ErrorCode::ArchivingError.code(),
    }
}

} // verus!
