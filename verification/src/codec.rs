//! Byte-level wire codec: the message buffer, its builder primitives (push)
//! and its cursor primitives (next), with the exact byte layout of each
//! primitive as the specification.
//!
//! Layout: 32-bit quantities travel little endian; signed and fixed-point
//! values travel as the two's-complement 32-bit pattern; strings and arrays
//! travel as a 32-bit length followed by that many raw bytes. File
//! descriptors travel out of band in a side channel and are consumed from it
//! in declared-argument order.

use vstd::prelude::*;
use vstd::bytes::*;
use vstd::slice::*;

verus! {

/// One wire message: the receiving object, the opcode, the argument byte
/// stream, and the out-of-band file-descriptor channel.
#[derive(Clone, Debug)]
pub struct Message {
    pub object: u32,
    pub opcode: u16,
    pub payload: Vec<u8>,
    pub fds: Vec<i32>,
}

impl Message {
    /// A fresh message addressed to `object` with the given opcode and no
    /// arguments yet.
    pub fn new(object: u32, opcode: u16) -> (r: Message)
        ensures
            r.object == object,
            r.opcode == opcode,
            r.payload@ == Seq::<u8>::empty(),
            r.fds@ == Seq::<i32>::empty(),
    {
        Message { object, opcode, payload: Vec::new(), fds: Vec::new() }
    }
}

/// Wire bytes of an unsigned 32-bit value.
pub open spec fn spec_encode_u32(x: u32) -> Seq<u8> {
    spec_u32_to_le_bytes(x)
}

/// Wire bytes of a signed 32-bit value: its two's-complement pattern.
pub open spec fn spec_encode_i32(x: i32) -> Seq<u8> {
    spec_u32_to_le_bytes(x as u32)
}

/// Wire bytes of a length-prefixed byte block (string or array payload).
pub open spec fn spec_encode_bytes(b: Seq<u8>) -> Seq<u8>
    recommends
        b.len() <= u32::MAX,
{
    spec_u32_to_le_bytes(b.len() as u32) + b
}

/// Read an unsigned 32-bit value at `pos`: the value and the position just
/// past it, or `None` if fewer than four bytes remain.
pub open spec fn spec_read_u32(payload: Seq<u8>, pos: int) -> Option<(u32, int)> {
    if 0 <= pos && pos + 4 <= payload.len() {
        Some((spec_u32_from_le_bytes(payload.subrange(pos, pos + 4)), pos + 4))
    } else {
        None
    }
}

/// Read a signed 32-bit value at `pos`, reinterpreting the unsigned pattern.
pub open spec fn spec_read_i32(payload: Seq<u8>, pos: int) -> Option<(i32, int)> {
    match spec_read_u32(payload, pos) {
        Some((x, p)) => Some((x as i32, p)),
        None => None,
    }
}

/// Read a length-prefixed byte block at `pos`.
pub open spec fn spec_read_bytes(payload: Seq<u8>, pos: int) -> Option<(Seq<u8>, int)> {
    match spec_read_u32(payload, pos) {
        Some((n, p)) => if p + n <= payload.len() {
            Some((payload.subrange(p, p + n), p + n))
        } else {
            None
        },
        None => None,
    }
}

/// Append an unsigned 32-bit value to the byte stream.
pub fn push_u32(payload: &mut Vec<u8>, x: u32)
    ensures
        final(payload)@ == old(payload)@ + spec_encode_u32(x),
{
    let mut bytes = u32_to_le_bytes(x);
    payload.append(&mut bytes);
}

/// Append a signed 32-bit value to the byte stream.
pub fn push_i32(payload: &mut Vec<u8>, x: i32)
    ensures
        final(payload)@ == old(payload)@ + spec_encode_i32(x),
{
    push_u32(payload, x as u32);
}

/// Append a length-prefixed byte block to the byte stream.
pub fn push_bytes(payload: &mut Vec<u8>, b: &Vec<u8>)
    requires
        b@.len() <= u32::MAX,
    ensures
        final(payload)@ == old(payload)@ + spec_encode_bytes(b@),
{
    push_u32(payload, b.len() as u32);
    let ghost mid = payload@;
    let mut idx: usize = 0;
    while idx < b.len()
        invariant
            0 <= idx <= b@.len(),
            payload@ == mid + b@.subrange(0, idx as int),
        decreases b@.len() - idx,
    {
        payload.push(b[idx]);
        proof {
            assert(payload@ =~= mid + b@.subrange(0, idx + 1));
        }
        idx = idx + 1;
    }
    proof {
        assert(b@.subrange(0, b@.len() as int) =~= b@);
        assert(final(payload)@ =~= old(payload)@ + spec_encode_bytes(b@));
    }
}

/// Append a file descriptor to the out-of-band channel.
pub fn push_fd(fds: &mut Vec<i32>, fd: i32)
    ensures
        final(fds)@ == old(fds)@.push(fd),
{
    fds.push(fd);
}

/// Read an unsigned 32-bit value from the byte stream at `pos`.
pub fn next_u32(payload: &Vec<u8>, pos: usize) -> (r: Option<(u32, usize)>)
    ensures
        match r {
            Some((x, p)) => spec_read_u32(payload@, pos as int) == Some((x, p as int)),
            None => spec_read_u32(payload@, pos as int) is None,
        },
{
    if pos <= payload.len() && payload.len() - pos >= 4 {
        let s = slice_subrange(payload.as_slice(), pos, pos + 4);
        let x = u32_from_le_bytes(s);
        Some((x, pos + 4))
    } else {
        None
    }
}

/// Read a signed 32-bit value from the byte stream at `pos`.
pub fn next_i32(payload: &Vec<u8>, pos: usize) -> (r: Option<(i32, usize)>)
    ensures
        match r {
            Some((x, p)) => spec_read_i32(payload@, pos as int) == Some((x, p as int)),
            None => spec_read_i32(payload@, pos as int) is None,
        },
{
    match next_u32(payload, pos) {
        Some((x, p)) => Some((x as i32, p)),
        None => None,
    }
}

/// Read a length-prefixed byte block from the byte stream at `pos`.
pub fn next_bytes(payload: &Vec<u8>, pos: usize) -> (r: Option<(Vec<u8>, usize)>)
    ensures
        match r {
            Some((b, p)) => spec_read_bytes(payload@, pos as int) == Some((b@, p as int)),
            None => spec_read_bytes(payload@, pos as int) is None,
        },
{
    match next_u32(payload, pos) {
        Some((n, p)) => {
            if n as usize <= payload.len() - p {
                let b = slice_to_vec(slice_subrange(payload.as_slice(), p, p + n as usize));
                Some((b, p + n as usize))
            } else {
                None
            }
        },
        None => None,
    }
}

/// Take the next file descriptor from the out-of-band channel.
pub fn next_fd(fds: &Vec<i32>, fd_pos: usize) -> (r: Option<(i32, usize)>)
    ensures
        match r {
            Some((fd, p)) => {
                &&& fd_pos < fds@.len()
                &&& fd == fds@[fd_pos as int]
                &&& p == fd_pos + 1
            },
            None => fd_pos >= fds@.len(),
        },
{
    if fd_pos < fds.len() {
        Some((fds[fd_pos], fd_pos + 1))
    } else {
        None
    }
}

/// Reading an unsigned value where it was written recovers it: the read
/// consumes exactly the four written bytes, whatever stands before or after.
pub proof fn lemma_read_encode_u32(prefix: Seq<u8>, x: u32, suffix: Seq<u8>)
    ensures
        spec_read_u32(prefix + spec_encode_u32(x) + suffix, prefix.len() as int) == Some(
            (x, prefix.len() as int + 4),
        ),
{
    lemma_auto_spec_u32_to_from_le_bytes();
    let whole = prefix + spec_encode_u32(x) + suffix;
    assert(whole.subrange(
        prefix.len() as int,
        prefix.len() as int + 4,
    ) =~= spec_u32_to_le_bytes(x));
}

/// Reading a signed value where it was written recovers it.
pub proof fn lemma_read_encode_i32(prefix: Seq<u8>, x: i32, suffix: Seq<u8>)
    ensures
        spec_read_i32(prefix + spec_encode_i32(x) + suffix, prefix.len() as int) == Some(
            (x, prefix.len() as int + 4),
        ),
{
    lemma_read_encode_u32(prefix, x as u32, suffix);
    assert((x as u32) as i32 == x) by (bit_vector);
}

/// Reading a byte block where it was written recovers it.
pub proof fn lemma_read_encode_bytes(prefix: Seq<u8>, b: Seq<u8>, suffix: Seq<u8>)
    requires
        b.len() <= u32::MAX,
    ensures
        spec_read_bytes(prefix + spec_encode_bytes(b) + suffix, prefix.len() as int) == Some(
            (b, prefix.len() as int + 4 + b.len()),
        ),
{
    lemma_auto_spec_u32_to_from_le_bytes();
    let whole = prefix + spec_encode_bytes(b) + suffix;
    assert(whole.subrange(
        prefix.len() as int,
        prefix.len() as int + 4,
    ) =~= spec_u32_to_le_bytes(b.len() as u32));
    assert(whole.subrange(
        prefix.len() as int + 4,
        prefix.len() as int + 4 + b.len(),
    ) =~= b);
}

} // verus!
