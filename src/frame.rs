//! Length-prefixed framing: eight bytes of payload length in network byte
//! order, then the payload.
use vstd::prelude::*;
use crate::codec::{push_bytes, push_range, read_be64};
use crate::format::{be64_value, enc_bytes, parse_bytes};

verus! {

/// Why a connection closed before a whole frame arrived.
#[derive(Clone, Copy, Debug, PartialEq, Eq)]
pub enum FramingError {
    /// Fewer than eight bytes came, so not even the length was complete.
    ShortPrefix { received: u64 },
    /// The length said `declared` payload bytes, but only `received` came.
    Truncated { declared: u64, received: u64 },
}

/// The bytes of one frame carrying `payload`.
pub fn frame(payload: &[u8]) -> (r: Vec<u8>)
    ensures
        r@ == enc_bytes(payload@),
{
    let mut out: Vec<u8> = Vec::new();
    push_bytes(&mut out, payload);
    assert(out@ =~= enc_bytes(payload@));
    out
}

/// The payload of the frame at the start of `s`, once all of it is there.
pub open spec fn frame_payload(s: Seq<u8>) -> Option<Seq<u8>> {
    match parse_bytes(s) {
        Some((p, _)) => Some(p),
        None => None,
    }
}

/// The bytes a reader holds after it held `buf` and then received `chunks`,
/// one read after another.
pub open spec fn fed(buf: Seq<u8>, chunks: Seq<Seq<u8>>) -> Seq<u8>
    decreases chunks.len(),
{
    if chunks.len() == 0 {
        buf
    } else {
        fed(buf + chunks[0], chunks.drop_first())
    }
}

/// Accumulates the bytes of one connection until a whole frame is there.
pub struct FrameReader {
    buf: Vec<u8>,
}

impl View for FrameReader {
    type V = Seq<u8>;

    closed spec fn view(&self) -> Seq<u8> {
        self.buf@
    }
}

impl FrameReader {
    pub fn new() -> (r: FrameReader)
        ensures
            r@ == Seq::<u8>::empty(),
    {
        FrameReader { buf: Vec::new() }
    }

    /// Takes the bytes of one read, however few.
    pub fn push(&mut self, chunk: &[u8])
        ensures
            final(self)@ == old(self)@ + chunk@,
    {
        push_range(&mut self.buf, chunk, 0, chunk.len());
        assert(chunk@.subrange(0, chunk@.len() as int) =~= chunk@);
    }

    /// The payload, once the declared number of bytes has arrived; nothing
    /// before that.
    pub fn poll(&self) -> (r: Option<Vec<u8>>)
        ensures
            match frame_payload(self@) {
                Some(p) => r matches Some(x) && x@ == p,
                None => r is None,
            },
    {
        let len = self.buf.len();
        if len < 8 {
            return None;
        }
        let n = read_be64(self.buf.as_slice(), 0);
        assert(self.buf@.skip(0) =~= self.buf@);
        if ((len - 8) as u64) < n {
            return None;
        }
        let mut out: Vec<u8> = Vec::new();
        push_range(&mut out, self.buf.as_slice(), 8, 8 + n as usize);
        assert(out@ =~= self.buf@.subrange(8, 8 + n as int));
        Some(out)
    }

    /// The connection has closed: the payload if it is whole, else why not.
    pub fn finish(&self) -> (r: Result<Vec<u8>, FramingError>)
        ensures
            match frame_payload(self@) {
                Some(p) => r matches Ok(x) && x@ == p,
                None => if self@.len() < 8 {
                    r == Err::<Vec<u8>, FramingError>(FramingError::ShortPrefix { received: self@.len() as u64 })
                } else {
                    r == Err::<Vec<u8>, FramingError>(FramingError::Truncated {
                        declared: be64_value(self@),
                        received: (self@.len() - 8) as u64,
                    })
                },
            },
    {
        match self.poll() {
            Some(p) => Ok(p),
            None => {
                let len = self.buf.len();
                if len < 8 {
                    Err(FramingError::ShortPrefix { received: len as u64 })
                } else {
                    assert(self.buf@.skip(0) =~= self.buf@);
                    Err(FramingError::Truncated {
                        declared: read_be64(self.buf.as_slice(), 0),
                        received: (len - 8) as u64,
                    })
                }
            },
        }
    }
}

proof fn lemma_fed(buf: Seq<u8>, chunks: Seq<Seq<u8>>)
    ensures
        fed(buf, chunks) == buf + chunks.flatten(),
    decreases chunks.len(),
{
    if chunks.len() > 0 {
        lemma_fed(buf + chunks[0], chunks.drop_first());
        assert(buf + chunks[0] + chunks.drop_first().flatten() =~= buf + chunks.flatten());
    }
}

/// However the bytes of a connection are split into reads, even one byte at a
/// time, a reader that starts empty holds the same bytes, and so yields the
/// same frame, as after one read of all of them.
pub proof fn law_split_reads(chunks: Seq<Seq<u8>>)
    ensures
        fed(Seq::empty(), chunks) == chunks.flatten(),
        frame_payload(fed(Seq::empty(), chunks)) == frame_payload(chunks.flatten()),
{
    lemma_fed(Seq::empty(), chunks);
    assert(Seq::<u8>::empty() + chunks.flatten() =~= chunks.flatten());
}

/// A frame built by `frame` yields its payload back, and nothing is read past
/// its end.
pub proof fn law_frame_round_trip(payload: Seq<u8>, rest: Seq<u8>)
    requires
        payload.len() <= u64::MAX,
    ensures
        frame_payload(enc_bytes(payload) + rest) == Some(payload),
{
    crate::format::lemma_bytes_round_trip(payload, rest);
}

} // verus!
