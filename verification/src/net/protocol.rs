//! Requests and responses: a four-byte header with the protocol version
//! and the length of the payload, both big-endian, one byte for the command
//! or the status, and the encoded message, if there is one.

use vstd::prelude::*;
use vstd::slice::slice_subrange;
use crate::errors::{Error, ProtocolError};
use crate::codec::codec_error;
use crate::net::message::{
    Message, MessageView, decoded_message, deserialize, enc_message,
    lemma_message_decode_encode, message_fits, serialize,
};

verus! {

/// The versions of the protocol that this library speaks.
pub enum SupportedVersions {
    One,
}

impl Default for SupportedVersions {
    fn default() -> (version: Self)
        ensures
            version is One,
    {
        SupportedVersions::One
    }
}

/// The version that this library speaks.
pub const VERSION: SupportedVersions = SupportedVersions::One;

impl SupportedVersions {
    /// The number of the version on the wire.
    pub fn as_u16(&self) -> (number: u16)
        ensures
            number == 1,
    {
        match self {
            Self::One => 1,
        }
    }
}

/// What a request asks for.
#[derive(Debug, Clone, Copy, PartialEq, Eq, Structural)]
pub enum Command {
    Ping,
    Get,
    Post,
}

impl Command {
    /// The byte of the command on the wire: 1 for ping, 2 for get, 3 for
    /// post.
    pub open spec fn byte(self) -> u8 {
        match self {
            Command::Ping => 1,
            Command::Get => 2,
            Command::Post => 3,
        }
    }

    /// The command of a byte, or the error for a byte that names none.
    pub open spec fn of_byte(value: u8) -> Result<Command, ProtocolError> {
        if value == 1 {
            Ok(Command::Ping)
        } else if value == 2 {
            Ok(Command::Get)
        } else if value == 3 {
            Ok(Command::Post)
        } else {
            Err(ProtocolError::UnsupportedCommand(value))
        }
    }

    /// The byte of the command on the wire.
    pub fn as_u8(&self) -> (b: u8)
        ensures
            b == self.byte(),
    {
        match self {
            Command::Ping => 1,
            Command::Get => 2,
            Command::Post => 3,
        }
    }

    /// The command of a byte, or `UnsupportedCommand` for a byte that names
    /// none.
    pub fn try_from(value: u8) -> (r: Result<Command, ProtocolError>)
        ensures
            r == Command::of_byte(value),
    {
        match value {
            1 => Ok(Command::Ping),
            2 => Ok(Command::Get),
            3 => Ok(Command::Post),
            n => Err(ProtocolError::UnsupportedCommand(n)),
        }
    }
}

/// How a request fared.
#[derive(Debug, Clone, Copy, PartialEq, Eq, Structural)]
pub enum StatusCode {
    OK,
    NotFound,
    Error,
}

impl StatusCode {
    /// The byte of the status on the wire: 0 for ok, 1 for not found, 2 for
    /// an error.
    pub open spec fn byte(self) -> u8 {
        match self {
            StatusCode::OK => 0,
            StatusCode::NotFound => 1,
            StatusCode::Error => 2,
        }
    }

    /// The status of a byte, or the error for a byte that names none.
    pub open spec fn of_byte(value: u8) -> Result<StatusCode, ProtocolError> {
        if value == 0 {
            Ok(StatusCode::OK)
        } else if value == 1 {
            Ok(StatusCode::NotFound)
        } else if value == 2 {
            Ok(StatusCode::Error)
        } else {
            Err(ProtocolError::UnsupportedStatusCode(value))
        }
    }

    /// The byte of the status on the wire.
    pub fn as_u8(&self) -> (b: u8)
        ensures
            b == self.byte(),
    {
        match self {
            StatusCode::OK => 0,
            StatusCode::NotFound => 1,
            StatusCode::Error => 2,
        }
    }

    /// The status of a byte, or `UnsupportedStatusCode` for a byte that
    /// names none.
    pub fn try_from(value: u8) -> (r: Result<StatusCode, ProtocolError>)
        ensures
            r == StatusCode::of_byte(value),
    {
        match value {
            0 => Ok(StatusCode::OK),
            1 => Ok(StatusCode::NotFound),
            2 => Ok(StatusCode::Error),
            n => Err(ProtocolError::UnsupportedStatusCode(n)),
        }
    }
}

/// The two bytes of `x`, the high one first.
pub open spec fn be16(x: u16) -> Seq<u8> {
    seq![(x / 256) as u8, (x % 256) as u8]
}

/// The number that two bytes spell, the high one first.
pub open spec fn from_be16(high: u8, low: u8) -> u16 {
    (high * 256 + low) as u16
}

/// The length that a header announces for a payload of `len` bytes: the
/// low 16 bits of the length.
pub open spec fn announced(len: nat) -> u16 {
    (len % 0x1_0000) as u16
}

/// The head of a frame: the protocol version and the length of the
/// payload.
#[derive(Debug, Clone, Copy, PartialEq, Eq, Structural)]
pub struct Header {
    version: u16,
    content_size: u16,
}

/// The mathematical value of a header.
pub struct HeaderView {
    pub version: u16,
    pub content_size: u16,
}

impl HeaderView {
    /// The four bytes of the header.
    pub open spec fn bytes(self) -> Seq<u8> {
        be16(self.version) + be16(self.content_size)
    }
}

/// The header that begins `bytes`: `InvalidMessageFormat` for fewer than
/// four bytes, `UnknownVersion` for a version other than 1.
pub open spec fn parse_header(bytes: Seq<u8>) -> Result<HeaderView, Error> {
    if bytes.len() < 4 {
        Err(Error::Protocol(ProtocolError::InvalidMessageFormat))
    } else if from_be16(bytes[0], bytes[1]) != 1 {
        Err(Error::Protocol(ProtocolError::UnknownVersion(from_be16(bytes[0], bytes[1]))))
    } else {
        Ok(HeaderView { version: 1, content_size: from_be16(bytes[2], bytes[3]) })
    }
}

/// The payload that follows a header which announces `content_size`
/// bytes: `HeaderMismatch` for another number of bytes, no payload for
/// none, and otherwise the message that the bytes encode.
pub open spec fn parse_payload(content_size: u16, bytes: Seq<u8>) -> Result<
    Option<MessageView>,
    Error,
> {
    if bytes.len() != content_size {
        Err(Error::Protocol(ProtocolError::HeaderMismatch))
    } else if content_size > 0 {
        match decoded_message(bytes) {
            Some(m) => Ok(Some(m)),
            None => Err(codec_error()),
        }
    } else {
        Ok(None)
    }
}

/// The bytes of a payload: nothing for none, else the encoded message.
pub open spec fn payload_bytes(payload: Option<MessageView>) -> Seq<u8> {
    match payload {
        Some(m) => enc_message(m),
        None => Seq::empty(),
    }
}

/// Whether a payload can be encoded.
pub open spec fn payload_fits(payload: Option<MessageView>) -> bool {
    match payload {
        Some(m) => message_fits(m),
        None => true,
    }
}

/// The bytes of a frame: header, command or status byte, payload.
pub open spec fn frame(header: HeaderView, tag: u8, payload: Option<MessageView>) -> Seq<u8> {
    header.bytes() + seq![tag] + payload_bytes(payload)
}

/// What a frame of `bytes` holds before its command or status byte is
/// read: the header and that byte. Fewer than five bytes are an
/// `InvalidMessageFormat`.
pub open spec fn parse_frame_head(bytes: Seq<u8>) -> Result<(HeaderView, u8), Error> {
    if bytes.len() < 5 {
        Err(Error::Protocol(ProtocolError::InvalidMessageFormat))
    } else {
        match parse_header(bytes.subrange(0, 4)) {
            Err(e) => Err(e),
            Ok(header) => Ok((header, bytes[4])),
        }
    }
}

impl View for Header {
    type V = HeaderView;

    closed spec fn view(&self) -> HeaderView {
        HeaderView { version: self.version, content_size: self.content_size }
    }
}

impl Header {
    /// The header of this library's version for a payload of
    /// `content_size` bytes.
    pub fn new(content_size: u16) -> (header: Self)
        ensures
            header@ == (HeaderView { version: 1, content_size }),
    {
        Header { version: VERSION.as_u16(), content_size }
    }

    /// The length of the payload that the header announces.
    pub fn content_size(&self) -> (n: u16)
        ensures
            n == self@.content_size,
    {
        self.content_size
    }

    /// The protocol version of the header.
    pub fn version(&self) -> (n: u16)
        ensures
            n == self@.version,
    {
        self.version
    }

    /// Appends the four bytes of the header to `buffer`. It never fails.
    pub fn to_bytes(&self, buffer: &mut Vec<u8>) -> (r: Result<(), Error>)
        ensures
            r is Ok,
            final(buffer)@ == old(buffer)@ + self@.bytes(),
    {
        buffer.push((self.version / 256) as u8);
        buffer.push((self.version % 256) as u8);
        buffer.push((self.content_size / 256) as u8);
        buffer.push((self.content_size % 256) as u8);
        assert(buffer@ =~= old(buffer)@ + self@.bytes());
        Ok(())
    }

    /// The header that begins `bytes`.
    pub fn from_bytes(bytes: &[u8]) -> (r: Result<Self, Error>)
        ensures
            match parse_header(bytes@) {
                Ok(h) => r is Ok && r->Ok_0@ == h,
                Err(e) => r == Err::<Header, Error>(e),
            },
    {
        if bytes.len() < 4 {
            return Err(Error::Protocol(ProtocolError::InvalidMessageFormat));
        }
        let version: u16 = bytes[0] as u16 * 256 + bytes[1] as u16;
        let content_size: u16 = bytes[2] as u16 * 256 + bytes[3] as u16;
        if version != VERSION.as_u16() {
            return Err(Error::Protocol(ProtocolError::UnknownVersion(version)));
        }
        Ok(Header { version, content_size })
    }
}

/// Appends a frame to `buffer`: the header, the command or status byte,
/// and the payload. A payload that cannot be encoded gives a serialization
/// error.
pub fn write_to_buffer(
    header: &Header,
    command_or_status: u8,
    payload: Option<&Message>,
    buffer: &mut Vec<u8>,
) -> (r: Result<(), Error>)
    ensures
        match payload {
            Some(p) => if message_fits(p@) {
                r is Ok && final(buffer)@ == old(buffer)@ + frame(
                    header@,
                    command_or_status,
                    Some(p@),
                )
            } else {
                r == Err::<(), Error>(codec_error())
            },
            None => r is Ok && final(buffer)@ == old(buffer)@ + frame(
                header@,
                command_or_status,
                None,
            ),
        },
{
    let _ = header.to_bytes(buffer);
    buffer.push(command_or_status);
    match payload {
        Some(p) => {
            match serialize(p, buffer) {
                Ok(_) => {},
                Err(e) => { return Err(e); },
            }
            assert(buffer@ =~= old(buffer)@ + frame(header@, command_or_status, Some(p@)));
        },
        None => {
            assert(buffer@ =~= old(buffer)@ + frame(header@, command_or_status, None));
        },
    }
    Ok(())
}

/// Reads the header and the command or status byte of a frame.
pub fn read_from_buffer(bytes: &[u8]) -> (r: Result<(Header, u8), Error>)
    ensures
        match parse_frame_head(bytes@) {
            Ok((h, tag)) => r is Ok && r->Ok_0.0@ == h && r->Ok_0.1 == tag,
            Err(e) => r == Err::<(Header, u8), Error>(e),
        },
{
    if bytes.len() < 5 {
        return Err(Error::Protocol(ProtocolError::InvalidMessageFormat));
    }
    let header = match Header::from_bytes(slice_subrange(bytes, 0, 4)) {
        Ok(header) => header,
        Err(e) => { return Err(e); },
    };
    Ok((header, bytes[4]))
}

/// Reads the payload of a frame of `bytes` whose header is `header`.
pub fn read_payload(header: &Header, bytes: &[u8]) -> (r: Result<Option<Message>, Error>)
    requires
        bytes@.len() >= 5,
    ensures
        match parse_payload(header@.content_size, bytes@.skip(5)) {
            Ok(Some(m)) => r is Ok && r->Ok_0 is Some && r->Ok_0->Some_0@ == m,
            Ok(None) => r is Ok && r->Ok_0 is None,
            Err(e) => r == Err::<Option<Message>, Error>(e),
        },
{
    let body = slice_subrange(bytes, 5, bytes.len());
    assert(body@ =~= bytes@.skip(5));
    if body.len() != header.content_size() as usize {
        return Err(Error::Protocol(ProtocolError::HeaderMismatch));
    }
    if header.content_size() > 0 {
        match deserialize(body) {
            Ok(m) => Ok(Some(m)),
            Err(e) => Err(e),
        }
    } else {
        Ok(None)
    }
}

/// The length that a header announces for `payload`, or a serialization
/// error for a payload that cannot be encoded.
pub fn announce(payload: &Option<Message>) -> (r: Result<u16, Error>)
    ensures
        match *payload {
            Some(p) => if message_fits(p@) {
                r == Ok::<u16, Error>(announced(enc_message(p@).len()))
            } else {
                r == Err::<u16, Error>(codec_error())
            },
            None => r == Ok::<u16, Error>(0),
        },
{
    match payload {
        Some(p) => {
            let mut serialized_payload: Vec<u8> = Vec::new();
            match serialize(p, &mut serialized_payload) {
                Ok(_) => {},
                Err(e) => { return Err(e); },
            }
            assert(serialized_payload@ =~= enc_message(p@));
            Ok((serialized_payload.len() % 0x1_0000) as u16)
        },
        None => Ok(0),
    }
}

/// The value of an optional message.
pub open spec fn payload_view(payload: Option<Message>) -> Option<MessageView> {
    match payload {
        Some(m) => Some(m@),
        None => None,
    }
}

/// A request: a command, with or without a message.
#[derive(Debug, Clone)]
pub struct Request {
    header: Header,
    command: Command,
    payload: Option<Message>,
}

/// The mathematical value of a request.
pub struct RequestView {
    pub header: HeaderView,
    pub command: Command,
    pub payload: Option<MessageView>,
}

impl RequestView {
    /// The bytes of the request.
    pub open spec fn bytes(self) -> Seq<u8> {
        frame(self.header, self.command.byte(), self.payload)
    }

    /// The header carries version 1 and the length of the payload, which
    /// can be encoded and is shorter than 65536 bytes.
    pub open spec fn well_formed(self) -> bool {
        &&& self.header.version == 1
        &&& payload_fits(self.payload)
        &&& payload_bytes(self.payload).len() == self.header.content_size
    }
}

/// The request that `bytes` hold, or the error of the first check that
/// fails: the frame's head, the command, the payload.
pub open spec fn parse_request(bytes: Seq<u8>) -> Result<RequestView, Error> {
    match parse_frame_head(bytes) {
        Err(e) => Err(e),
        Ok((header, tag)) => match Command::of_byte(tag) {
            Err(e) => Err(Error::Protocol(e)),
            Ok(command) => match parse_payload(header.content_size, bytes.skip(5)) {
                Err(e) => Err(e),
                Ok(payload) => Ok(RequestView { header, command, payload }),
            },
        },
    }
}

impl View for Request {
    type V = RequestView;

    closed spec fn view(&self) -> RequestView {
        RequestView {
            header: self.header@,
            command: self.command,
            payload: payload_view(self.payload),
        }
    }
}

impl Request {
    /// A request with `command` and `payload`, under a header that
    /// announces the low 16 bits of the payload's length. A payload that
    /// cannot be encoded gives a serialization error.
    pub fn new(command: Command, payload: Option<Message>) -> (r: Result<Self, Error>)
        ensures
            payload_fits(payload_view(payload)) ==> r is Ok && r->Ok_0@ == (RequestView {
                header: HeaderView {
                    version: 1,
                    content_size: announced(payload_bytes(payload_view(payload)).len()),
                },
                command,
                payload: payload_view(payload),
            }),
            !payload_fits(payload_view(payload)) ==> r == Err::<Request, Error>(codec_error()),
    {
        let content_size = match announce(&payload) {
            Ok(n) => n,
            Err(e) => { return Err(e); },
        };
        let header = Header::new(content_size);
        Ok(Request { header, command, payload })
    }

    /// The bytes of the request. A payload that cannot be encoded gives a
    /// serialization error.
    pub fn to_bytes(&self) -> (r: Result<Vec<u8>, Error>)
        ensures
            payload_fits(self@.payload) ==> r is Ok && r->Ok_0@ == self@.bytes(),
            !payload_fits(self@.payload) ==> r == Err::<Vec<u8>, Error>(codec_error()),
    {
        let mut buffer: Vec<u8> = Vec::new();
        match write_to_buffer(
            &self.header,
            self.command.as_u8(),
            self.payload.as_ref(),
            &mut buffer,
        ) {
            Ok(_) => {},
            Err(e) => { return Err(e); },
        }
        assert(buffer@ =~= self@.bytes());
        Ok(buffer)
    }

    /// The request that `bytes` hold.
    pub fn from_bytes(bytes: &[u8]) -> (r: Result<Self, Error>)
        ensures
            match parse_request(bytes@) {
                Ok(v) => r is Ok && r->Ok_0@ == v,
                Err(e) => r == Err::<Request, Error>(e),
            },
    {
        let (header, tag) = match read_from_buffer(bytes) {
            Ok(pair) => pair,
            Err(e) => { return Err(e); },
        };
        let command = match Command::try_from(tag) {
            Ok(command) => command,
            Err(e) => { return Err(Error::Protocol(e)); },
        };
        let payload = match read_payload(&header, bytes) {
            Ok(payload) => payload,
            Err(e) => { return Err(e); },
        };
        Ok(Request { header, command, payload })
    }

    /// The command of the request.
    pub fn command(&self) -> (r: &Command)
        ensures
            *r == self@.command,
    {
        &self.command
    }

    /// The payload of the request.
    pub fn payload(&self) -> (r: &Option<Message>)
        ensures
            payload_view(*r) == self@.payload,
    {
        &self.payload
    }
}

/// A response: a status, with or without a message.
#[derive(Debug, Clone)]
pub struct Response {
    header: Header,
    status: StatusCode,
    payload: Option<Message>,
}

/// The mathematical value of a response.
pub struct ResponseView {
    pub header: HeaderView,
    pub status: StatusCode,
    pub payload: Option<MessageView>,
}

impl ResponseView {
    /// The bytes of the response.
    pub open spec fn bytes(self) -> Seq<u8> {
        frame(self.header, self.status.byte(), self.payload)
    }

    /// The header carries version 1 and the length of the payload, which
    /// can be encoded and is shorter than 65536 bytes.
    pub open spec fn well_formed(self) -> bool {
        &&& self.header.version == 1
        &&& payload_fits(self.payload)
        &&& payload_bytes(self.payload).len() == self.header.content_size
    }
}

/// The response that `bytes` hold, or the error of the first check that
/// fails: the frame's head, the status, the payload.
pub open spec fn parse_response(bytes: Seq<u8>) -> Result<ResponseView, Error> {
    match parse_frame_head(bytes) {
        Err(e) => Err(e),
        Ok((header, tag)) => match StatusCode::of_byte(tag) {
            Err(e) => Err(Error::Protocol(e)),
            Ok(status) => match parse_payload(header.content_size, bytes.skip(5)) {
                Err(e) => Err(e),
                Ok(payload) => Ok(ResponseView { header, status, payload }),
            },
        },
    }
}

impl View for Response {
    type V = ResponseView;

    closed spec fn view(&self) -> ResponseView {
        ResponseView {
            header: self.header@,
            status: self.status,
            payload: payload_view(self.payload),
        }
    }
}

impl Response {
    /// A response with `status` and `payload`, under a header that
    /// announces the low 16 bits of the payload's length. A payload that
    /// cannot be encoded gives a serialization error.
    pub fn new(status: StatusCode, payload: Option<Message>) -> (r: Result<Self, Error>)
        ensures
            payload_fits(payload_view(payload)) ==> r is Ok && r->Ok_0@ == (ResponseView {
                header: HeaderView {
                    version: 1,
                    content_size: announced(payload_bytes(payload_view(payload)).len()),
                },
                status,
                payload: payload_view(payload),
            }),
            !payload_fits(payload_view(payload)) ==> r == Err::<Response, Error>(codec_error()),
    {
        let content_size = match announce(&payload) {
            Ok(n) => n,
            Err(e) => { return Err(e); },
        };
        let header = Header::new(content_size);
        Ok(Response { header, status, payload })
    }

    /// The bytes of the response. A payload that cannot be encoded gives a
    /// serialization error.
    pub fn to_bytes(&self) -> (r: Result<Vec<u8>, Error>)
        ensures
            payload_fits(self@.payload) ==> r is Ok && r->Ok_0@ == self@.bytes(),
            !payload_fits(self@.payload) ==> r == Err::<Vec<u8>, Error>(codec_error()),
    {
        let mut buffer: Vec<u8> = Vec::new();
        match write_to_buffer(
            &self.header,
            self.status.as_u8(),
            self.payload.as_ref(),
            &mut buffer,
        ) {
            Ok(_) => {},
            Err(e) => { return Err(e); },
        }
        assert(buffer@ =~= self@.bytes());
        Ok(buffer)
    }

    /// The response that `bytes` hold.
    pub fn from_bytes(bytes: &[u8]) -> (r: Result<Self, Error>)
        ensures
            match parse_response(bytes@) {
                Ok(v) => r is Ok && r->Ok_0@ == v,
                Err(e) => r == Err::<Response, Error>(e),
            },
    {
        let (header, tag) = match read_from_buffer(bytes) {
            Ok(pair) => pair,
            Err(e) => { return Err(e); },
        };
        let status = match StatusCode::try_from(tag) {
            Ok(status) => status,
            Err(e) => { return Err(Error::Protocol(e)); },
        };
        let payload = match read_payload(&header, bytes) {
            Ok(payload) => payload,
            Err(e) => { return Err(e); },
        };
        Ok(Response { header, status, payload })
    }

    /// The status of the response.
    pub fn status(&self) -> (r: &StatusCode)
        ensures
            *r == self@.status,
    {
        &self.status
    }

    /// The payload of the response.
    pub fn payload(&self) -> (r: &Option<Message>)
        ensures
            payload_view(*r) == self@.payload,
    {
        &self.payload
    }
}

/// Two bytes spell the number that they were made from.
pub proof fn lemma_be16_round_trip(x: u16)
    ensures
        be16(x).len() == 2,
        from_be16(be16(x)[0], be16(x)[1]) == x,
{
}

/// Reading the bytes of a frame gives back its header, its command or
/// status byte and its payload.
pub proof fn lemma_frame_round_trip(header: HeaderView, tag: u8, payload: Option<MessageView>)
    requires
        header.version == 1,
        payload_fits(payload),
        payload_bytes(payload).len() == header.content_size,
    ensures
        parse_frame_head(frame(header, tag, payload)) == Ok::<(HeaderView, u8), Error>(
            (header, tag),
        ),
        parse_payload(header.content_size, frame(header, tag, payload).skip(5)) == Ok::<
            Option<MessageView>,
            Error,
        >(payload),
{
    let all = frame(header, tag, payload);
    lemma_be16_round_trip(header.version);
    lemma_be16_round_trip(header.content_size);
    assert(all.subrange(0, 4) =~= header.bytes());
    assert(all[4] == tag);
    assert(all.skip(5) =~= payload_bytes(payload));
    match payload {
        Some(m) => {
            lemma_message_decode_encode(m);
            assert(enc_message(m).len() > 0);
        },
        None => {},
    }
}

/// Reading the bytes of a well-formed request gives the request back.
pub proof fn lemma_request_round_trip(request: RequestView)
    requires
        request.well_formed(),
    ensures
        parse_request(request.bytes()) == Ok::<RequestView, Error>(request),
{
    lemma_frame_round_trip(request.header, request.command.byte(), request.payload);
}

/// Reading the bytes of a well-formed response gives the response back.
pub proof fn lemma_response_round_trip(response: ResponseView)
    requires
        response.well_formed(),
    ensures
        parse_response(response.bytes()) == Ok::<ResponseView, Error>(response),
{
    lemma_frame_round_trip(response.header, response.status.byte(), response.payload);
}

} // verus!
