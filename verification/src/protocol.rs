//! The worker protocol: what peers say to each other, and how the bytes of a
//! message are framed.
//!
//! A frame is a four-byte big-endian length followed by exactly that many
//! bytes of CBOR. Turning a message into CBOR and back is left to whoever owns
//! the connection.

use crate::text::{concat, decimal, decimal_text};
use vstd::prelude::*;

verus! {

pub const PROTOCOL_VERSION: u16 = 1;

/// The largest body that a frame may have.
pub const MAX_FRAME_BYTES: usize = 1_048_576;

/// The length of the prefix that says how long the body is.
pub const PREFIX_BYTES: usize = 4;

/// A message with the version of the protocol that it is in.
#[derive(Debug, Clone, PartialEq, Eq)]
pub struct ProtocolFrame<T> {
    pub protocol_version: u16,
    pub payload: T,
}

impl<T> ProtocolFrame<T> {
    /// A message in the present version.
    pub fn v1(payload: T) -> (r: Self)
        ensures
            r.protocol_version == PROTOCOL_VERSION,
            r.payload == payload,
    {
        ProtocolFrame { protocol_version: PROTOCOL_VERSION, payload }
    }

    /// The frame itself, unless it is in another version.
    pub fn supported(self) -> (r: Result<Self, ProtocolError>)
        ensures
            self.protocol_version == PROTOCOL_VERSION ==> r == Ok::<Self, ProtocolError>(self),
            self.protocol_version != PROTOCOL_VERSION ==> r == Err::<Self, ProtocolError>(
                ProtocolError::UnsupportedVersion(self.protocol_version),
            ),
    {
        if self.protocol_version != PROTOCOL_VERSION {
            return Err(ProtocolError::UnsupportedVersion(self.protocol_version));
        }
        Ok(self)
    }
}

/// What a job came to.
#[derive(Debug, Clone, PartialEq, Eq)]
pub enum JobResult {
    Succeeded { payload: Vec<u8> },
    Failed { message: String },
}

/// What peers say to each other.
#[derive(Debug, Clone, PartialEq, Eq)]
pub enum WorkerMessage {
    /// Sent by a worker before anything else.
    Register { instance_id: u128, queue_name: String, running_jobs: u32, free_slots: u32 },
    /// Sent by Maqistor to the single registered worker queue.
    JobDispatch { job_id: i64, dispatch_id: String, execution_count: u32, payload: Vec<u8> },
    /// Sent by a worker after the dispatched job finishes.
    JobResult {
        job_id: i64,
        dispatch_id: String,
        result: JobResult,
        running_jobs: u32,
        free_slots: u32,
    },
    Heartbeat,
    /// Sent by a worker that wants no further jobs.
    Drain,
    /// Sent by Maqistor once no further jobs will come.
    Draining,
    Registered { queue_name: String },
    Error { code: String, message: String },
}

pub type WireFrame = ProtocolFrame<WorkerMessage>;

/// Why a frame is refused.
#[derive(Debug, PartialEq, Eq)]
pub enum ProtocolError {
    UnsupportedVersion(u16),
    FrameTooLarge,
    /// The body is not a message.
    Malformed(String),
    /// The bytes are not a frame, or could not be read.
    Io(String),
}

/// What a refusal says.
pub enum ProtocolErrorView {
    UnsupportedVersion(u16),
    FrameTooLarge,
    Malformed(Seq<char>),
    Io(Seq<char>),
}

impl View for ProtocolError {
    type V = ProtocolErrorView;

    open spec fn view(&self) -> ProtocolErrorView {
        match *self {
            ProtocolError::UnsupportedVersion(version) => ProtocolErrorView::UnsupportedVersion(
                version,
            ),
            ProtocolError::FrameTooLarge => ProtocolErrorView::FrameTooLarge,
            ProtocolError::Malformed(reason) => ProtocolErrorView::Malformed(reason@),
            ProtocolError::Io(reason) => ProtocolErrorView::Io(reason@),
        }
    }
}

/// The message of a refusal.
pub open spec fn protocol_error_text(error: ProtocolErrorView) -> Seq<char> {
    match error {
        ProtocolErrorView::UnsupportedVersion(version) => "unsupported protocol version "@
            + decimal(version as nat),
        ProtocolErrorView::FrameTooLarge => "frame exceeds 1048576 byte limit"@,
        ProtocolErrorView::Malformed(reason) => "malformed frame: "@ + reason,
        ProtocolErrorView::Io(reason) => "I/O error: "@ + reason,
    }
}

impl ProtocolError {
    /// The message that this error displays.
    pub fn to_text(&self) -> (r: String)
        ensures
            r@ == protocol_error_text(self@),
    {
        match self {
            ProtocolError::UnsupportedVersion(version) => {
                let digits = decimal_text(*version as u64);
                concat("unsupported protocol version ", digits.as_str())
            },
            ProtocolError::FrameTooLarge => "frame exceeds 1048576 byte limit".to_owned(),
            ProtocolError::Malformed(reason) => concat("malformed frame: ", reason.as_str()),
            ProtocolError::Io(reason) => concat("I/O error: ", reason.as_str()),
        }
    }
}

/// The number that four bytes spell, the most significant first.
pub open spec fn big_endian(b: Seq<u8>) -> int {
    ((b[0] * 256 + b[1]) * 256 + b[2]) * 256 + b[3]
}

/// The four bytes that spell a number.
pub open spec fn length_prefix(n: int) -> Seq<u8> {
    seq![
        (n / 16_777_216 % 256) as u8,
        (n / 65_536 % 256) as u8,
        (n / 256 % 256) as u8,
        (n % 256) as u8,
    ]
}

/// The prefix of a length reads back as that length.
pub proof fn lemma_prefix_reads_back(n: int)
    requires
        0 <= n <= u32::MAX,
    ensures
        big_endian(length_prefix(n)) == n,
{
    let b3 = n % 256;
    let n1 = n / 256;
    let b2 = n1 % 256;
    let n2 = n1 / 256;
    let b1 = n2 % 256;
    let n3 = n2 / 256;
    assert(n == n1 * 256 + b3);
    assert(n1 == n2 * 256 + b2);
    assert(n2 == n3 * 256 + b1);
    assert(n3 < 256);
    assert(n / 65_536 == n2);
    assert(n / 16_777_216 == n3);
}

/// The length that a prefix declares.
fn declared_length(b0: u8, b1: u8, b2: u8, b3: u8) -> (r: u32)
    ensures
        r == big_endian(seq![b0, b1, b2, b3]),
{
    ((b0 as u32 * 256 + b1 as u32) * 256 + b2 as u32) * 256 + b3 as u32
}

/// How many bytes of body follow a prefix that has been read, unless that is
/// more than a frame may have.
pub fn body_length(prefix: [u8; 4]) -> (r: Result<usize, ProtocolError>)
    ensures
        match r {
            Ok(n) => n == big_endian(prefix@) && n <= MAX_FRAME_BYTES,
            Err(error) => big_endian(prefix@) > MAX_FRAME_BYTES && error
                == ProtocolError::FrameTooLarge,
        },
{
    let length = declared_length(prefix[0], prefix[1], prefix[2], prefix[3]) as usize;
    proof {
        assert(prefix@ =~= seq![prefix@[0], prefix@[1], prefix@[2], prefix@[3]]);
    }
    if length > MAX_FRAME_BYTES {
        return Err(ProtocolError::FrameTooLarge);
    }
    Ok(length)
}

/// The bytes that frame a body.
pub open spec fn framed(body: Seq<u8>) -> Seq<u8> {
    length_prefix(body.len() as int) + body
}

/// Frames the body of a message in `protocol_version`.
pub fn encode_frame(protocol_version: u16, body: &Vec<u8>) -> (r: Result<Vec<u8>, ProtocolError>)
    ensures
        match r {
            Ok(bytes) => {
                &&& protocol_version == PROTOCOL_VERSION
                &&& body@.len() <= MAX_FRAME_BYTES
                &&& bytes@ == framed(body@)
            },
            Err(error) => {
                ||| protocol_version != PROTOCOL_VERSION && error
                    == ProtocolError::UnsupportedVersion(protocol_version)
                ||| protocol_version == PROTOCOL_VERSION && body@.len() > MAX_FRAME_BYTES && error
                    == ProtocolError::FrameTooLarge
            },
        },
{
    if protocol_version != PROTOCOL_VERSION {
        return Err(ProtocolError::UnsupportedVersion(protocol_version));
    }
    if body.len() > MAX_FRAME_BYTES {
        return Err(ProtocolError::FrameTooLarge);
    }
    let n: u32 = body.len() as u32;
    let mut bytes: Vec<u8> = Vec::new();
    bytes.push((n / 16_777_216 % 256) as u8);
    bytes.push((n / 65_536 % 256) as u8);
    bytes.push((n / 256 % 256) as u8);
    bytes.push((n % 256) as u8);
    proof {
        assert(bytes@ =~= length_prefix(body@.len() as int));
    }
    let mut i: usize = 0;
    while i < body.len()
        invariant
            i <= body@.len(),
            bytes@ == length_prefix(body@.len() as int) + body@.take(i as int),
        decreases body.len() - i,
    {
        bytes.push(body[i]);
        i += 1;
        proof {
            assert(bytes@ =~= length_prefix(body@.len() as int) + body@.take(i as int));
        }
    }
    proof {
        assert(body@.take(body@.len() as int) =~= body@);
    }
    Ok(bytes)
}

/// What unframing comes to: the body, where the prefix declares exactly the
/// bytes that follow and no more than a frame may have.
pub open spec fn unframed(bytes: Seq<u8>) -> Result<Seq<u8>, ProtocolErrorView> {
    if bytes.len() < PREFIX_BYTES {
        Err(ProtocolErrorView::Io("missing frame length"@))
    } else if big_endian(bytes.take(4)) > MAX_FRAME_BYTES {
        Err(ProtocolErrorView::FrameTooLarge)
    } else if bytes.len() != big_endian(bytes.take(4)) + 4 {
        Err(ProtocolErrorView::Io("frame length mismatch"@))
    } else {
        Ok(bytes.skip(4))
    }
}

/// The body of a frame.
pub fn decode_frame(bytes: &Vec<u8>) -> (r: Result<Vec<u8>, ProtocolError>)
    ensures
        match (r, unframed(bytes@)) {
            (Ok(body), Ok(expected)) => body@ == expected,
            (Err(error), Err(expected)) => error@ == expected,
            _ => false,
        },
{
    if bytes.len() < PREFIX_BYTES {
        return Err(ProtocolError::Io("missing frame length".to_owned()));
    }
    let length = declared_length(bytes[0], bytes[1], bytes[2], bytes[3]) as usize;
    proof {
        assert(bytes@.take(4) =~= seq![bytes@[0], bytes@[1], bytes@[2], bytes@[3]]);
    }
    if length > MAX_FRAME_BYTES {
        return Err(ProtocolError::FrameTooLarge);
    }
    if bytes.len() != length + 4 {
        return Err(ProtocolError::Io("frame length mismatch".to_owned()));
    }
    let mut body: Vec<u8> = Vec::new();
    let mut i: usize = 4;
    while i < bytes.len()
        invariant
            4 <= i <= bytes@.len(),
            body@ == bytes@.subrange(4, i as int),
        decreases bytes.len() - i,
    {
        body.push(bytes[i]);
        i += 1;
        proof {
            assert(body@ =~= bytes@.subrange(4, i as int));
        }
    }
    proof {
        assert(bytes@.subrange(4, bytes@.len() as int) =~= bytes@.skip(4));
    }
    Ok(body)
}

/// A body that fits in a frame comes out of it as it went in.
pub proof fn framing_round_trips(body: Seq<u8>)
    requires
        body.len() <= MAX_FRAME_BYTES,
    ensures
        unframed(framed(body)) == Ok::<Seq<u8>, ProtocolErrorView>(body),
{
    lemma_prefix_reads_back(body.len() as int);
    assert(framed(body).take(4) =~= length_prefix(body.len() as int));
    assert(framed(body).skip(4) =~= body);
}

/// Only one sequence of bytes frames a body: whatever unframes to it is what
/// framing it gives.
pub proof fn frames_are_canonical(bytes: Seq<u8>, body: Seq<u8>)
    requires
        unframed(bytes) == Ok::<Seq<u8>, ProtocolErrorView>(body),
    ensures
        bytes == framed(body),
        body.len() <= MAX_FRAME_BYTES,
{
    let p = bytes.take(4);
    let n = big_endian(p);
    assert(p.len() == 4);
    assert(length_prefix(n) =~= p) by {
        let b0 = p[0] as int;
        let b1 = p[1] as int;
        let b2 = p[2] as int;
        let b3 = p[3] as int;
        assert(n == b0 * 16_777_216 + b1 * 65_536 + b2 * 256 + b3);
        assert(n / 16_777_216 == b0);
        assert(n / 65_536 == b0 * 256 + b1);
        assert(n / 256 == (b0 * 256 + b1) * 256 + b2);
    }
    assert(bytes =~= framed(body));
}

/// A frame is the length of its body in four bytes, the most significant first,
/// and then the body.
pub proof fn frames_begin_with_their_length(body: Seq<u8>)
    requires
        body.len() <= 1_048_576,
    ensures
        framed(body).len() == body.len() + 4,
        framed(body)[0] * 16_777_216 + framed(body)[1] * 65_536 + framed(body)[2] * 256
            + framed(body)[3] == body.len(),
        forall|i: int| 0 <= i < body.len() ==> #[trigger] framed(body)[i + 4] == body[i],
{
    lemma_prefix_reads_back(body.len() as int);
}

/// Bytes are a frame exactly if their first four spell how many follow, and no
/// more follow than a frame may have. Otherwise they are refused: where they
/// are too few to say, where they say too much, and where they say something
/// else than what follows.
pub proof fn frames_say_what_follows(bytes: Seq<u8>)
    ensures
        ({
            let said = bytes[0] * 16_777_216 + bytes[1] * 65_536 + bytes[2] * 256 + bytes[3];
            match unframed(bytes) {
                Ok(body) => {
                    &&& bytes.len() >= 4
                    &&& said <= 1_048_576
                    &&& bytes.len() == said + 4
                    &&& body == bytes.skip(4)
                },
                Err(error) => {
                    ||| bytes.len() < 4 && error == ProtocolErrorView::Io("missing frame length"@)
                    ||| bytes.len() >= 4 && said > 1_048_576 && error
                        == ProtocolErrorView::FrameTooLarge
                    ||| bytes.len() >= 4 && said <= 1_048_576 && bytes.len() != said + 4 && error
                        == ProtocolErrorView::Io("frame length mismatch"@)
                },
            }
        }),
{
}

/// How refusals read.
pub proof fn refusals_are_spelled_out(version: u16, reason: Seq<char>)
    ensures
        protocol_error_text(ProtocolErrorView::UnsupportedVersion(version))
            == "unsupported protocol version "@ + decimal(version as nat),
        protocol_error_text(ProtocolErrorView::FrameTooLarge)
            == "frame exceeds 1048576 byte limit"@,
        protocol_error_text(ProtocolErrorView::Malformed(reason)) == "malformed frame: "@ + reason,
        protocol_error_text(ProtocolErrorView::Io(reason)) == "I/O error: "@ + reason,
{
}

} // verus!
