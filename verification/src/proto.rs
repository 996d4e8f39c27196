//! The client/server wire contract: what crosses the socket, and the framing that
//! delimits it.
//!
//! A frame is a four-byte big-endian length and then that many bytes of an encoded
//! message.

use vstd::prelude::*;
use vstd::string::StringExecFns;

use crate::command::Command;
use crate::text;
use crate::text::push_u64;

verus! {

/// A message from a client to the server.
#[derive(Debug, Clone, Copy, PartialEq, Eq, Structural)]
pub enum ClientMessage {
    /// The handshake a client sends first: the fingerprint of the content it loaded.
    Hello { content_hash: u64 },
    /// A player action to apply at the next tick boundary.
    Command(Command),
}

/// The largest message body that is read: 64 MiB.
pub const MAX_MSG_BYTES: u32 = 67_108_864;

/// The length of a frame's prefix.
pub const PREFIX: usize = 4;

/// Four bytes of a length, highest first.
pub open spec fn prefix_of(n: u32) -> Seq<u8> {
    seq![
        (n / 0x100_0000) as u8,
        (n / 0x1_0000 % 0x100) as u8,
        (n / 0x100 % 0x100) as u8,
        (n % 0x100) as u8,
    ]
}

/// The length that four bytes stand for, highest first.
pub open spec fn length_of(prefix: Seq<u8>) -> int {
    prefix[0] * 0x100_0000 + prefix[1] * 0x1_0000 + prefix[2] * 0x100 + prefix[3]
}

/// A message body in its frame.
pub open spec fn framed(body: Seq<u8>) -> Seq<u8> {
    prefix_of(body.len() as u32) + body
}

/// Put a message body in its frame.
pub fn frame(body: &Vec<u8>) -> (out: Vec<u8>)
    requires
        body@.len() <= u32::MAX,
    ensures
        out@ == framed(body@),
{
    let n = body.len() as u32;
    let mut out: Vec<u8> = Vec::new();
    out.push((n / 0x100_0000) as u8);
    out.push((n / 0x1_0000 % 0x100) as u8);
    out.push((n / 0x100 % 0x100) as u8);
    out.push((n % 0x100) as u8);
    let ghost head = out@;
    assert(head =~= prefix_of(n));
    let mut i: usize = 0;
    assert(out@ =~= head + body@.take(0));
    while i < body.len()
        invariant
            i <= body@.len(),
            out@ == head + body@.take(i as int),
        decreases body@.len() - i,
    {
        out.push(body[i]);
        assert(out@ =~= head + body@.take(i + 1));
        i = i + 1;
    }
    assert(body@.take(i as int) =~= body@);
    out
}

/// A frame announces a body that is too long to be read.
#[derive(Debug, Clone, Copy, PartialEq, Eq, Structural)]
pub struct FrameTooLong {
    pub length: u32,
}

impl FrameTooLong {
    /// "message length 4294967295 exceeds the 67108864-byte cap".
    pub open spec fn spec_message(self) -> Seq<char> {
        "message length "@ + text::dec_nat(self.length as nat) + " exceeds the "@ + text::dec_nat(
            MAX_MSG_BYTES as nat,
        ) + "-byte cap"@
    }

    /// The error as text.
    pub fn message(&self) -> (s: String)
        ensures
            s@ == self.spec_message(),
    {
        let mut s = String::new();
        s.append("message length ");
        push_u64(&mut s, self.length as u64);
        s.append(" exceeds the ");
        push_u64(&mut s, MAX_MSG_BYTES as u64);
        s.append("-byte cap");
        assert(s@ =~= self.spec_message());
        s
    }
}

/// How many bytes follow a frame's prefix. A length past the cap is refused before
/// anything is read.
pub fn body_length(prefix: &[u8]) -> (r: Result<usize, FrameTooLong>)
    requires
        prefix@.len() == PREFIX,
    ensures
        match r {
            Ok(n) => n == length_of(prefix@) && n <= MAX_MSG_BYTES,
            Err(e) => e.length == length_of(prefix@) && e.length > MAX_MSG_BYTES,
        },
{
    let n: u32 = prefix[0] as u32 * 0x100_0000 + prefix[1] as u32 * 0x1_0000 + prefix[2] as u32
        * 0x100 + prefix[3] as u32;
    if n > MAX_MSG_BYTES {
        Err(FrameTooLong { length: n })
    } else {
        Ok(n as usize)
    }
}

/// What the front of a byte stream holds.
pub enum Front {
    /// Not a whole frame yet.
    Incomplete,
    /// A frame too long to be read.
    TooLong(FrameTooLong),
    /// A frame with this body.
    Whole(Vec<u8>),
}

/// What the front of a byte stream holds.
pub open spec fn front_is(stream: Seq<u8>, f: Front) -> bool {
    match f {
        Front::Incomplete => stream.len() < PREFIX || (length_of(stream.take(PREFIX as int))
            <= MAX_MSG_BYTES && stream.len() < PREFIX + length_of(stream.take(PREFIX as int))),
        Front::TooLong(e) => stream.len() >= PREFIX && e.length == length_of(
            stream.take(PREFIX as int),
        ) && e.length > MAX_MSG_BYTES,
        Front::Whole(body) => stream.len() >= PREFIX && length_of(stream.take(PREFIX as int))
            <= MAX_MSG_BYTES && stream.len() >= PREFIX + length_of(stream.take(PREFIX as int))
            && body@ == stream.subrange(
            PREFIX as int,
            PREFIX + length_of(stream.take(PREFIX as int)),
        ),
    }
}

/// Look at the front of a byte stream.
pub fn unframe(stream: &Vec<u8>) -> (f: Front)
    ensures
        front_is(stream@, f),
{
    if stream.len() < PREFIX {
        return Front::Incomplete;
    }
    let mut prefix: Vec<u8> = Vec::new();
    prefix.push(stream[0]);
    prefix.push(stream[1]);
    prefix.push(stream[2]);
    prefix.push(stream[3]);
    assert(prefix@ =~= stream@.take(PREFIX as int));
    let n = match body_length(prefix.as_slice()) {
        Ok(n) => n,
        Err(e) => {
            return Front::TooLong(e);
        },
    };
    if stream.len() - PREFIX < n {
        return Front::Incomplete;
    }
    let mut body: Vec<u8> = Vec::new();
    let mut i: usize = PREFIX;
    while i < PREFIX + n
        invariant
            PREFIX <= i <= PREFIX + n,
            PREFIX + n <= stream@.len(),
            n <= MAX_MSG_BYTES,
            body@ == stream@.subrange(PREFIX as int, i as int),
        decreases PREFIX + n - i,
    {
        body.push(stream[i]);
        assert(body@ =~= stream@.subrange(PREFIX as int, i + 1));
        i = i + 1;
    }
    Front::Whole(body)
}

proof fn lemma_prefix(n: u32)
    ensures
        length_of(prefix_of(n)) == n,
{
}

/// A body comes out of its frame as it went in, whatever follows on the stream.
pub proof fn lemma_frame_round_trip(body: Seq<u8>, rest: Seq<u8>, f: Front)
    requires
        body.len() <= MAX_MSG_BYTES,
        front_is(framed(body) + rest, f),
    ensures
        f is Whole,
        f->Whole_0@ == body,
{
    let stream = framed(body) + rest;
    lemma_prefix(body.len() as u32);
    assert(stream.take(PREFIX as int) =~= prefix_of(body.len() as u32));
    assert(stream.subrange(PREFIX as int, PREFIX + body.len()) =~= body);
}

/// A frame that announces more than the cap is refused, whatever follows.
pub proof fn lemma_oversized_refused(n: u32, rest: Seq<u8>, f: Front)
    requires
        n > MAX_MSG_BYTES,
        front_is(prefix_of(n) + rest, f),
    ensures
        f is TooLong,
        f->TooLong_0.length == n,
{
    let stream = prefix_of(n) + rest;
    lemma_prefix(n);
    assert(stream.take(PREFIX as int) =~= prefix_of(n));
}

} // verus!
