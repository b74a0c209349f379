//! The length-prefixed wire framing: a 4-byte little-endian frame length
//! (counting the code and the body), a 4-byte little-endian message code,
//! and a variable-length body under a fixed maximum frame size. This module
//! holds the pure framing rules; reading and writing sockets stays outside
//! the library.

use vstd::prelude::*;

verus! {

/// The maximum frame size in bytes.
pub const MAX_LEN: usize = 64 * 1024;

/// One message: a code and an optional body.
pub struct Message {
    pub msgcode: i32,
    pub body: Option<Vec<u8>>,
}

impl Message {
    /// A message carrying a body.
    pub fn new(msgcode: i32, body: Vec<u8>) -> (m: Message)
        ensures
            m.msgcode == msgcode,
            m.body == Some(body),
    {
        Message { msgcode, body: Some(body) }
    }

    /// A bodyless message.
    pub fn new_no_body(msgcode: i32) -> (m: Message)
        ensures
            m.msgcode == msgcode,
            m.body is None,
    {
        Message { msgcode, body: None }
    }
}

/// The four little-endian bytes of a 32-bit value.
pub open spec fn u32_le(x: u32) -> Seq<u8> {
    seq![
        (x & 0xFF) as u8,
        ((x >> 8) & 0xFF) as u8,
        ((x >> 16) & 0xFF) as u8,
        ((x >> 24) & 0xFF) as u8,
    ]
}

/// Appends the four little-endian bytes of `x`.
fn push_u32_le(v: &mut Vec<u8>, x: u32)
    requires
        old(v)@.len() + 4 <= usize::MAX,
    ensures
        final(v)@ == old(v)@ + u32_le(x),
{
    v.push((x & 0xFF) as u8);
    v.push(((x >> 8u32) & 0xFF) as u8);
    v.push(((x >> 16u32) & 0xFF) as u8);
    v.push(((x >> 24u32) & 0xFF) as u8);
    proof {
        assert(v@ =~= old(v)@ + u32_le(x));
    }
}

/// Validates a frame's declared length and yields the body length it
/// announces: the length must cover the 4-byte code and stay within the
/// maximum frame size.
pub fn parse_header(size: i32) -> (r: Option<usize>)
    ensures
        r is Some <==> 4 <= size <= MAX_LEN,
        r matches Some(n) ==> n == size - 4,
{
    if size < 4 {
        return None;
    }
    if size as usize > MAX_LEN {
        return None;
    }
    Some((size as usize) - 4)
}

/// Encodes a message as one frame: length, code, body. Refuses a message
/// whose frame would reach the maximum frame size, changing nothing.
pub fn encode_message(m: &Message) -> (r: Option<Vec<u8>>)
    ensures
        m.body is None ==> (r matches Some(f) && f@ == u32_le(4) + u32_le(m.msgcode as u32)),
        m.body matches Some(b) ==> {
            if b@.len() + 8 >= MAX_LEN {
                r is None
            } else {
                r matches Some(f) && f@ == u32_le((b@.len() + 4) as u32) + u32_le(
                    m.msgcode as u32,
                ) + b@
            }
        },
{
    match &m.body {
        None => {
            let mut frame: Vec<u8> = Vec::new();
            push_u32_le(&mut frame, 4);
            push_u32_le(&mut frame, m.msgcode as u32);
            proof {
                assert(frame@ =~= u32_le(4) + u32_le(m.msgcode as u32));
            }
            Some(frame)
        },
        Some(body) => {
            if body.len() >= MAX_LEN {
                return None;
            }
            let size = 4 + body.len();
            if size + 4 >= MAX_LEN {
                return None;
            }
            let mut frame: Vec<u8> = Vec::new();
            push_u32_le(&mut frame, size as u32);
            push_u32_le(&mut frame, m.msgcode as u32);
            let mut i: usize = 0;
            while i < body.len()
                invariant
                    i <= body@.len(),
                    body@.len() + 8 < MAX_LEN,
                    frame@ == u32_le((body@.len() + 4) as u32) + u32_le(m.msgcode as u32)
                        + body@.subrange(0, i as int),
                decreases body@.len() - i,
            {
                frame.push(body[i]);
                proof {
                    assert(frame@ =~= u32_le((body@.len() + 4) as u32) + u32_le(m.msgcode as u32)
                        + body@.subrange(0, i + 1));
                }
                i = i + 1;
            }
            proof {
                assert(body@.subrange(0, body@.len() as int) =~= body@);
            }
            Some(frame)
        },
    }
}

} // verus!
