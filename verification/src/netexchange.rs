//! The file exchange between two peers: a request names a content key, the
//! response carries the file with its version record. Each travels on a
//! stream of its own, as one frame: its length, then its bytes.

use crate::bencode::{
    byte_list_at, enc_byte_list, expect_lit, lemma_byte_list_at, lemma_starts_join,
    lemma_starts_split, lit, parse_byte_list, push_byte_list, push_lit, starts,
};
use crate::dht::{
    enc_entry, entry_at, lemma_entry_at, lemma_entry_at_sound, parse_entry, push_entry, DhtEntry,
    EntryView,
};
use crate::frame::{
    begins_with, frame, framed, lemma_length_at, length_at, read_length, varint,
};
use vstd::prelude::*;
use vstd::string::*;

verus! {

/// The largest request payload that is taken, in bytes.
pub const REQUEST_LIMIT: usize = 1_000_000;

/// The largest response payload that is taken, in bytes.
pub const RESPONSE_LIMIT: usize = 500_000_000;

/// A request for a file: the bytes of its content key.
#[derive(Debug, Clone, PartialEq, Eq)]
pub struct FileRequest(pub Vec<u8>);

/// A response: the wire form of a `ResponseData`.
#[derive(Debug, Clone, PartialEq, Eq)]
pub struct FileResponse(pub Vec<u8>);

/// Why what a stream carried was not taken as a request or a response.
#[derive(Debug, Clone, Copy, PartialEq, Eq, Structural)]
pub enum ExchangeError {
    /// The stream ended before the payload was complete, or the payload is
    /// empty.
    UnexpectedEof,
    /// The payload that the stream announces is longer than the limit for
    /// its kind.
    TooLong,
    /// The stream does not begin with the prefix of a length.
    BadPrefix,
}

/// The payload of the frame that stands at the beginning of what a stream
/// carried, for a payload of at most `limit` bytes. What follows the frame
/// is not looked at.
pub open spec fn unframed(s: Seq<u8>, limit: usize) -> Result<Seq<u8>, ExchangeError> {
    match length_at(s) {
        None => Err(ExchangeError::BadPrefix),
        Some((n, start)) => {
            if n > limit {
                Err(ExchangeError::TooLong)
            } else if n == 0 || s.len() < start + n {
                Err(ExchangeError::UnexpectedEof)
            } else {
                Ok(s.subrange(start, start + n))
            }
        },
    }
}

/// A frame is read back as its payload, whatever follows it on the stream,
/// as long as the payload is not empty and within the limit.
pub proof fn lemma_unframe_framed(payload: Seq<u8>, rest: Seq<u8>, limit: usize)
    requires
        0 < payload.len() <= limit,
    ensures
        unframed(framed(payload) + rest, limit) == Ok::<Seq<u8>, ExchangeError>(payload),
{
    let s = framed(payload) + rest;
    let n = payload.len() as usize;
    let v = varint(n as nat);
    assert(s.subrange(0, v.len() as int) =~= v);
    lemma_length_at(s, n);
    assert(s.subrange(v.len() as int, v.len() + n) =~= payload);
}

/// Takes the payload out of what a stream carried.
pub fn unframe(stream: &Vec<u8>, limit: usize) -> (res: Result<Vec<u8>, ExchangeError>)
    ensures
        match res {
            Ok(p) => unframed(stream@, limit) == Ok::<Seq<u8>, ExchangeError>(p@),
            Err(e) => unframed(stream@, limit) == Err::<Seq<u8>, ExchangeError>(e),
        },
{
    match read_length(stream.as_slice()) {
        None => Err(ExchangeError::BadPrefix),
        Some((n, start)) => {
            proof {
                assert(begins_with(stream@, varint(n as nat)));
            }
            if n > limit {
                Err(ExchangeError::TooLong)
            } else if n == 0 || n > stream.len() - start {
                Err(ExchangeError::UnexpectedEof)
            } else {
                Ok(
                    vstd::slice::slice_to_vec(
                        vstd::slice::slice_subrange(stream.as_slice(), start, start + n),
                    ),
                )
            }
        },
    }
}

/// The name under which the exchange is negotiated.
pub struct FileExchangeProtocol();

/// Turns what streams carry into requests and responses, and back.
pub struct FileExchangeCodec();

impl FileExchangeProtocol {
    /// The protocol's name on the wire.
    pub fn protocol_name(&self) -> (res: &'static str)
        ensures
            res@ == "/file-exchange/1"@,
    {
        "/file-exchange/1"
    }
}

impl FileExchangeCodec {
    /// Takes what the stream of a request carried: the payload of its
    /// frame is the request. A stream that does not begin with a length, a
    /// payload beyond the limit for requests, and an empty or incomplete
    /// payload are refused.
    pub fn read_request(&self, stream: Vec<u8>) -> (res: Result<FileRequest, ExchangeError>)
        ensures
            match res {
                Ok(r) => unframed(stream@, REQUEST_LIMIT) == Ok::<Seq<u8>, ExchangeError>(r.0@),
                Err(e) => unframed(stream@, REQUEST_LIMIT) == Err::<Seq<u8>, ExchangeError>(e),
            },
    {
        match unframe(&stream, REQUEST_LIMIT) {
            Ok(payload) => Ok(FileRequest(payload)),
            Err(e) => Err(e),
        }
    }

    /// Takes what the stream of a response carried: the payload of its
    /// frame is the response. A stream that does not begin with a length, a
    /// payload beyond the limit for responses, and an empty or incomplete
    /// payload are refused.
    pub fn read_response(&self, stream: Vec<u8>) -> (res: Result<FileResponse, ExchangeError>)
        ensures
            match res {
                Ok(r) => unframed(stream@, RESPONSE_LIMIT) == Ok::<Seq<u8>, ExchangeError>(r.0@),
                Err(e) => unframed(stream@, RESPONSE_LIMIT) == Err::<Seq<u8>, ExchangeError>(e),
            },
    {
        match unframe(&stream, RESPONSE_LIMIT) {
            Ok(payload) => Ok(FileResponse(payload)),
            Err(e) => Err(e),
        }
    }

    /// What to write on the stream for a request: its frame.
    pub fn write_request(&self, request: FileRequest) -> (res: Vec<u8>)
        ensures
            res@ == framed(request.0@),
    {
        frame(&request.0)
    }

    /// What to write on the stream for a response: its frame.
    pub fn write_response(&self, response: FileResponse) -> (res: Vec<u8>)
        ensures
            res@ == framed(response.0@),
    {
        frame(&response.0)
    }
}

/// What a peer answers to a request: the file's bytes and its version record.
#[derive(PartialEq, Debug, Clone, Eq)]
pub struct ResponseData {
    pub metadata: DhtEntry,
    pub data: Vec<u8>,
}

/// What a transfer response holds, as mathematical values.
pub struct ResponseView {
    pub metadata: EntryView,
    pub data: Seq<u8>,
}

impl View for ResponseData {
    type V = ResponseView;

    open spec fn view(&self) -> ResponseView {
        ResponseView { metadata: self.metadata@, data: self.data@ }
    }
}

/// The wire form of a transfer response: a dictionary with the keys `data` and
/// `metadata`.
pub open spec fn enc_response(data: Seq<u8>, metadata: EntryView) -> Seq<u8> {
    lit("d4:data") + enc_byte_list(data) + lit("8:metadata") + enc_entry(metadata) + lit("e")
}

/// The transfer response whose wire form stands at `pos`, with the position
/// after it.
pub open spec fn response_at(s: Seq<u8>, pos: int) -> Option<(ResponseView, int)> {
    let r0 = byte_list_at(s, pos + lit("d4:data").len());
    let r1 = entry_at(s, r0.unwrap().1 + lit("8:metadata").len());
    if starts(s, pos, lit("d4:data"))
        && r0 is Some
        && starts(s, r0.unwrap().1, lit("8:metadata"))
        && r1 is Some
        && starts(s, r1.unwrap().1, lit("e"))
    {
        Some(
            (
                ResponseView { metadata: r1.unwrap().0, data: r0.unwrap().0 },
                r1.unwrap().1 + lit("e").len(),
            ),
        )
    } else {
        None
    }
}

/// Where the wire form of a transfer response stands, the transfer response is
/// read back.
pub proof fn lemma_response_at(s: Seq<u8>, pos: int, data: Seq<u8>, metadata: EntryView)
    requires
        starts(s, pos, enc_response(data, metadata)),
    ensures
        response_at(s, pos) == Some(
            (
                ResponseView { metadata: metadata, data: data },
                pos + enc_response(data, metadata).len(),
            ),
        ),
{
    let k0 = lit("d4:data");
    let f0 = enc_byte_list(data);
    let k1 = lit("8:metadata");
    let f1 = enc_entry(metadata);
    let k2 = lit("e");
    lemma_starts_split(s, pos, k0 + f0 + k1 + f1, k2);
    lemma_starts_split(s, pos, k0 + f0 + k1, f1);
    lemma_starts_split(s, pos, k0 + f0, k1);
    lemma_starts_split(s, pos, k0, f0);
    lemma_byte_list_at(s, pos + k0.len(), data);
    lemma_entry_at(s, pos + (k0 + f0 + k1).len(), metadata);
}

/// What is read as a transfer response at `pos` is the wire form of what was
/// read.
pub proof fn lemma_response_at_sound(s: Seq<u8>, pos: int)
    requires
        response_at(s, pos) is Some,
    ensures
        ({
            let (v, end) = response_at(s, pos).unwrap();
            starts(s, pos, enc_response(v.data, v.metadata))
                && end == pos + enc_response(v.data, v.metadata).len()
        }),
{
    let k0 = lit("d4:data");
    let r0 = byte_list_at(s, pos + k0.len()).unwrap();
    let f0 = enc_byte_list(r0.0);
    let k1 = lit("8:metadata");
    let r1 = entry_at(s, r0.1 + k1.len()).unwrap();
    lemma_entry_at_sound(s, r0.1 + k1.len());
    let f1 = enc_entry(r1.0);
    let k2 = lit("e");
    lemma_starts_join(s, pos, k0, f0);
    lemma_starts_join(s, pos, k0 + f0, k1);
    lemma_starts_join(s, pos, k0 + f0 + k1, f1);
    lemma_starts_join(s, pos, k0 + f0 + k1 + f1, k2);
}

/// Reads the transfer response whose wire form stands at `pos`.
pub fn parse_response(buf: &[u8], pos: usize) -> (r: Option<(ResponseData, usize)>)
    requires
        pos <= buf.len(),
    ensures
        match r {
            Some((v, end)) => response_at(buf@, pos as int) == Some((v@, end as int)),
            None => response_at(buf@, pos as int) is None,
        },
{
    let q0 = expect_lit(buf, pos, "d4:data".as_bytes())?;
    let (data, p1) = parse_byte_list(buf, q0)?;
    let q1 = expect_lit(buf, p1, "8:metadata".as_bytes())?;
    let (metadata, p2) = parse_entry(buf, q1)?;
    let q2 = expect_lit(buf, p2, "e".as_bytes())?;
    Some((ResponseData { metadata, data }, q2))
}

/// Appends the wire form of a transfer response.
pub fn push_response(out: &mut Vec<u8>, v: &ResponseData)
    ensures
        final(out)@ == old(out)@ + enc_response(v.data@, v.metadata@),
{
    push_lit(out, "d4:data".as_bytes());
    push_byte_list(out, v.data.as_slice());
    push_lit(out, "8:metadata".as_bytes());
    push_entry(out, &v.metadata);
    push_lit(out, "e".as_bytes());
    proof {
        assert(final(out)@ =~= old(out)@ + enc_response(v.data@, v.metadata@));
    }
}

/// Two transfer responses with one wire form are the same.
pub proof fn lemma_enc_response_injective(a: ResponseView, b: ResponseView)
    requires
        enc_response(a.data, a.metadata) == enc_response(b.data, b.metadata),
    ensures
        a == b,
{
    let s = enc_response(a.data, a.metadata);
    assert(s.subrange(0, s.len() as int) =~= s);
    lemma_response_at(s, 0, a.data, a.metadata);
    lemma_response_at(s, 0, b.data, b.metadata);
}

/// The response that `b` is the wire form of, if it is that of any.
pub open spec fn decode_response(b: Seq<u8>) -> Option<ResponseView> {
    if exists|m: ResponseView| b == enc_response(m.data, m.metadata) {
        Some(choose|m: ResponseView| b == enc_response(m.data, m.metadata))
    } else {
        None
    }
}

/// Round trip: the wire form of a transfer response is read back as the same response,
/// whatever its fields hold.
pub proof fn lemma_decode_response(m: ResponseView)
    ensures
        decode_response(enc_response(m.data, m.metadata)) == Some(m),
{
    let c = choose|c: ResponseView| enc_response(m.data, m.metadata)
        == enc_response(c.data, c.metadata);
    lemma_enc_response_injective(m, c);
}

impl ResponseData {
    /// The wire form of the response.
    pub fn to_bytes(&self) -> (res: Vec<u8>)
        ensures
            res@ == enc_response(self.data@, self.metadata@),
    {
        let mut out: Vec<u8> = Vec::new();
        push_response(&mut out, self);
        proof {
            assert(out@ =~= enc_response(self.data@, self.metadata@));
        }
        out
    }

    /// The response that `bytes` is the wire form of, if it is that of any.
    pub fn from_bytes(bytes: Vec<u8>) -> (res: Option<Self>)
        ensures
            match res {
                Some(e) => bytes@ == enc_response(e.data@, e.metadata@)
                    && decode_response(bytes@) == Some(e@),
                None => (forall|m: ResponseView| bytes@ != enc_response(m.data, m.metadata))
                    && decode_response(bytes@) is None,
            },
    {
        let ghost s = bytes@;
        let parsed = parse_response(bytes.as_slice(), 0);
        proof {
            assert(s.subrange(0, s.len() as int) =~= s);
            assert forall|m: ResponseView| s == enc_response(m.data, m.metadata)
                implies response_at(s, 0) == Some(
                (m, s.len() as int),
            ) by {
                lemma_response_at(s, 0, m.data, m.metadata);
            }
            if response_at(s, 0) is Some {
                lemma_response_at_sound(s, 0);
            }
        }
        match parsed {
            None => None,
            Some((v, end)) => {
                if end != bytes.len() {
                    return None;
                }
                proof {
                    lemma_decode_response(v@);
                }
                Some(v)
            },
        }
    }
}

} // verus!
