//! One complete frame: a four-byte length, a compression flag, and a body
//! that holds the message identifier and the value sequence.
use crate::bytes::{be_u32_of, inflate, utf8_lossy, zlib_inflated};
use crate::data::{DataView, HdataObject, WeechatData};
use crate::errors::{ErrorKind, WeechatParseError};
use crate::grammar::{
    malformed, read_string_32bit_length, read_u32, same_outcome, spec_long_text, values_view,
};
use crate::values::{decode_values, spec_values};
use vstd::prelude::*;

verus! {

/// The five-byte header of a frame. `length` counts the flag and the body,
/// not the length field itself.
#[derive(PartialEq, Eq, Structural, Copy, Clone, Debug)]
pub struct Header {
    pub length: u32,
    pub compressed: bool,
}

/// The mathematical value of a [`WeechatMessage`].
pub struct MessageView {
    pub id: Seq<char>,
    pub values: Seq<DataView>,
}

/// A decoded message: its identifier and its values, in payload order.
#[derive(Debug)]
pub struct WeechatMessage {
    pub id: String,
    pub data: Vec<WeechatData>,
}

impl WeechatMessage {
    pub open spec fn view(&self) -> MessageView {
        MessageView { id: self.id@, values: values_view(self.data@) }
    }
}

/// The identifier given to a message whose identifier field is null: the
/// relay sends such messages in reply to its `test` command.
pub open spec fn anonymous_id() -> Seq<char> {
    seq!['t', 'e', 's', 't']
}

/// The header at the start of a frame.
pub open spec fn spec_header(f: Seq<u8>) -> Result<Header, ErrorKind> {
    if f.len() < 5 {
        malformed()
    } else {
        Ok(Header { length: be_u32_of(f) as u32, compressed: f[4] == 1 })
    }
}

/// The body of a frame: every byte after the flag. The frame is whole, so
/// its length field is not consulted again.
pub open spec fn spec_body(f: Seq<u8>) -> Result<Seq<u8>, ErrorKind> {
    if f.len() < 5 {
        malformed()
    } else {
        Ok(f.subrange(5, f.len() as int))
    }
}

/// The payload of a frame: its body, inflated where the flag is `1`.
pub open spec fn spec_payload(f: Seq<u8>) -> Result<Seq<u8>, ErrorKind> {
    match spec_body(f) {
        Err(e) => Err(e),
        Ok(body) => if f[4] == 1 {
            match zlib_inflated(body) {
                Some(p) => Ok(p),
                None => malformed(),
            }
        } else {
            Ok(body)
        },
    }
}

/// The message that a frame holds.
#[verifier::opaque]
pub open spec fn spec_message(f: Seq<u8>) -> Result<MessageView, ErrorKind> {
    match spec_payload(f) {
        Err(e) => Err(e),
        Ok(p) => match spec_long_text(p) {
            Err(e) => Err(e),
            Ok((id, k)) => match spec_values(p.skip(k as int)) {
                Err(e) => Err(e),
                Ok(vs) => Ok(
                    MessageView {
                        id: match id {
                            Some(t) => utf8_lossy(t),
                            None => anonymous_id(),
                        },
                        values: vs,
                    },
                ),
            },
        },
    }
}

/// The length field of a frame.
pub fn get_length(buffer: &[u8]) -> (r: Result<u32, WeechatParseError>)
    ensures
        match r {
            Ok(v) => buffer@.len() >= 4 && v as int == be_u32_of(buffer@),
            Err(e) => buffer@.len() < 4 && e.spec_kind() == ErrorKind::MalformedBinaryParse,
        },
{
    read_u32(buffer)
}

/// Whether a frame's body is compressed: its fifth byte is `1`.
pub fn get_compression(buffer: &[u8]) -> (r: Result<bool, WeechatParseError>)
    ensures
        match r {
            Ok(c) => buffer@.len() >= 5 && c == (buffer@[4] == 1),
            Err(e) => buffer@.len() < 5 && e.spec_kind() == ErrorKind::MalformedBinaryParse,
        },
{
    if buffer.len() < 5 {
        Err(WeechatParseError::new(ErrorKind::MalformedBinaryParse, "Could not find compression flag"))
    } else {
        Ok(buffer[4] == 1)
    }
}

/// The header at the start of a frame.
pub fn read_header(buffer: &[u8]) -> (r: Result<Header, WeechatParseError>)
    ensures
        same_outcome(r, spec_header(buffer@)),
        r is Ok ==> r->Ok_0 == spec_header(buffer@)->Ok_0,
{
    let compressed = get_compression(buffer)?;
    let length = read_u32(buffer)?;
    Ok(Header { length, compressed })
}

/// The payload of a frame: the bytes after the flag, inflated where the
/// frame is compressed.
pub fn get_raw_data(buffer: &[u8]) -> (r: Result<Vec<u8>, WeechatParseError>)
    ensures
        same_outcome(r, spec_payload(buffer@)),
        r is Ok ==> r->Ok_0@ == spec_payload(buffer@)->Ok_0,
{
    let compressed = get_compression(buffer)?;
    let body = &buffer[5..buffer.len()];
    if compressed {
        match inflate(body) {
            Ok(payload) => Ok(payload),
            Err(detail) => Err(
                WeechatParseError::with_detail(
                    ErrorKind::MalformedBinaryParse,
                    "failed to inflate the body",
                    detail,
                ),
            ),
        }
    } else {
        let mut payload: Vec<u8> = Vec::new();
        let mut i: usize = 0;
        while i < body.len()
            invariant
                i <= body.len(),
                payload@ == body@.subrange(0, i as int),
            decreases body.len() - i,
        {
            payload.push(body[i]);
            i = i + 1;
            assert(payload@ =~= body@.subrange(0, i as int));
        }
        assert(body@.subrange(0, i as int) =~= body@);
        Ok(payload)
    }
}

/// The identifier field at the start of a payload: the bytes it takes, and
/// its text, or `None` where it is null.
pub fn get_message_type(buffer: &[u8]) -> (r: Result<(usize, Option<String>), WeechatParseError>)
    ensures
        same_outcome(r, spec_long_text(buffer@)),
        r is Ok ==> {
            let (t, k) = spec_long_text(buffer@)->Ok_0;
            &&& r->Ok_0.0 == k
            &&& r->Ok_0.1 is None <==> t is None
            &&& r->Ok_0.1 is Some ==> r->Ok_0.1->Some_0@ == utf8_lossy(t->Some_0)
        },
{
    read_string_32bit_length(buffer)
}

/// The identifier of the event that reports new chat lines.
pub open spec fn line_added_id() -> Seq<char> {
    seq!['_', 'b', 'u', 'f', 'f', 'e', 'r', '_', 'l', 'i', 'n', 'e', '_', 'a', 'd', 'd', 'e', 'd']
}

impl WeechatMessage {
    /// The records of a `_buffer_line_added` event: the objects of its first
    /// value, where that value is an hdata. `None` for any other message.
    pub fn line_records(&self) -> (r: Option<&Vec<HdataObject>>)
        ensures
            r is Some <==> (self.id@ == line_added_id() && self.data@.len() > 0
                && self.data@[0] is Hdata),
            r is Some ==> self.data@[0]->Hdata_2 == *r->Some_0,
    {
        proof {
            reveal_strlit("_buffer_line_added");
        }
        let name = "_buffer_line_added".to_owned();
        assert(name@ =~= line_added_id());
        if self.id != name || self.data.len() == 0 {
            return None;
        }
        match &self.data[0] {
            WeechatData::Hdata(_, _, objects) => Some(objects),
            _ => None,
        }
    }

    /// Decodes one complete frame. A null identifier reads as `test`.
    pub fn from_raw_message(buffer: &[u8]) -> (r: Result<WeechatMessage, WeechatParseError>)
        ensures
            same_outcome(r, spec_message(buffer@)),
            r is Ok ==> r->Ok_0.view() == spec_message(buffer@)->Ok_0,
    {
        reveal(spec_message);
        let payload = get_raw_data(buffer)?;
        let (len, id) = get_message_type(payload.as_slice())?;
        let name = match id {
            Some(text) => text,
            None => {
                proof {
                    reveal_strlit("test");
                }
                let text = "test".to_owned();
                assert(text@ =~= anonymous_id());
                text
            },
        };
        let rest = &payload.as_slice()[len..payload.len()];
        assert(rest@ =~= payload@.skip(len as int));
        let data = decode_values(rest)?;
        Ok(WeechatMessage { id: name, data })
    }
}


/// The four bytes of `n`, most significant first.
pub open spec fn be_bytes(n: u32) -> Seq<u8> {
    seq![
        (n / 0x100_0000) as u8,
        (n / 0x1_0000 % 0x100) as u8,
        (n / 0x100 % 0x100) as u8,
        (n % 0x100) as u8,
    ]
}

/// A frame built from a body of `L` bytes and a flag byte `f`, with the
/// length field `L + 1`, reads back as that length and the flag `f == 1`,
/// and its body is exactly those `L` bytes: the payload itself where `f` is
/// not `1`, what they inflate to where it is.
pub proof fn lemma_header_round_trip(body: Seq<u8>, f: u8)
    requires
        body.len() + 1 <= u32::MAX,
    ensures
        ({
            let l = (body.len() + 1) as u32;
            let frame = be_bytes(l) + seq![f] + body;
            &&& spec_header(frame) == Ok::<Header, ErrorKind>(Header { length: l, compressed: f == 1 })
            &&& spec_body(frame) == Ok::<Seq<u8>, ErrorKind>(body)
            &&& f != 1 ==> spec_payload(frame) == Ok::<Seq<u8>, ErrorKind>(body)
            &&& f == 1 ==> spec_payload(frame) == match zlib_inflated(body) {
                Some(p) => Ok(p),
                None => malformed(),
            }
        }),
{
    let l = (body.len() + 1) as u32;
    let frame = be_bytes(l) + seq![f] + body;
    let (a, b, c, d) = (l / 0x100_0000, l / 0x1_0000 % 0x100, l / 0x100 % 0x100, l % 0x100);
    assert(a * 0x100_0000 + b * 0x1_0000 + c * 0x100 + d == l) by (nonlinear_arith)
        requires
            a == l / 0x100_0000,
            b == l / 0x1_0000 % 0x100,
            c == l / 0x100 % 0x100,
            d == l % 0x100,
    ;
    assert(be_u32_of(frame) == l);
    assert(frame.subrange(5, frame.len() as int) =~= body);
}

} // verus!
