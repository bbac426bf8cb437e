//! Wire codec for the five TFTP frame shapes.
//!
//! | Frame   | Layout                                                        |
//! |---------|---------------------------------------------------------------|
//! | Request | opcode 1 (read) or 2 (write), file name, 0, mode text, 0      |
//! | Data    | opcode 3, block number, payload of 0 to 512 bytes             |
//! | Ack     | opcode 4, block number                                        |
//! | Error   | opcode 5, error code, message text, 0                         |
//!
//! Opcodes and block numbers travel most significant byte first. The error
//! code travels least significant byte first: a deliberate departure from
//! network byte order, kept for the clients that expect it.
//!
//! `encode_frame` and `decode_frame` say what the bytes of a frame are and
//! which frame a datagram holds; `Packet::serialize` and
//! `Packet::deserialize` compute exactly that.

use vstd::prelude::*;
use vstd::utf8::{
    decode_utf8, encode_scalar, encode_utf8, has_width_1_encoding, last_continuation_byte,
    leading_byte_width_1, leading_byte_width_2, leading_byte_width_3, leading_byte_width_4,
    second_last_continuation_byte, third_last_continuation_byte, valid_utf8,
};

verus! {

/// Opcode of a read request.
pub const READ_OPCODE: u16 = 1;
/// Opcode of a write request.
pub const WRITE_OPCODE: u16 = 2;
/// Opcode of a data frame.
pub const DATA_OPCODE: u16 = 3;
/// Opcode of an acknowledgment.
pub const ACK_OPCODE: u16 = 4;
/// Opcode of an error frame.
pub const ERROR_OPCODE: u16 = 5;

/// Error code: not defined, see the message.
pub const SEE_MSG: u16 = 0;
/// Error code: file not found.
pub const FILE_NOT_FOUND: u16 = 1;
/// Error code: access violation.
pub const ACCESS_VIOLATION: u16 = 2;
/// Error code: disk full or allocation exceeded.
pub const DISK_FULL: u16 = 3;
/// Error code: illegal TFTP operation.
pub const ILLEGAL_OP: u16 = 4;
/// Error code: unknown transfer ID.
pub const UNKNOWN_TID: u16 = 5;
/// Error code: file already exists.
pub const FILE_EXISTS: u16 = 6;
/// Error code: no such user.
pub const NO_USER: u16 = 7;

/// Largest payload of a data frame, in bytes.
pub const BLOCK_SIZE: usize = 512;

/// Transfer mode named in a request.
#[derive(Debug, PartialEq, Eq, Structural, Clone, Copy)]
pub enum Mode {
    NetAscii,
    Octet,
    Mail,
}

/// The lower-case ASCII text of "netascii".
pub open spec fn netascii_text() -> Seq<u8> {
    seq!['n' as u8, 'e' as u8, 't' as u8, 'a' as u8, 's' as u8, 'c' as u8, 'i' as u8, 'i' as u8]
}

/// The lower-case ASCII text of "octet".
pub open spec fn octet_text() -> Seq<u8> {
    seq!['o' as u8, 'c' as u8, 't' as u8, 'e' as u8, 't' as u8]
}

/// The lower-case ASCII text of "mail".
pub open spec fn mail_text() -> Seq<u8> {
    seq!['m' as u8, 'a' as u8, 'i' as u8, 'l' as u8]
}

/// The bytes that stand for a mode on the wire.
pub open spec fn mode_text(mode: Mode) -> Seq<u8> {
    match mode {
        Mode::NetAscii => netascii_text(),
        Mode::Octet => octet_text(),
        Mode::Mail => mail_text(),
    }
}

/// Folds an upper-case ASCII letter (65 to 90) to lower case and leaves
/// other bytes alone.
pub open spec fn ascii_lower(b: u8) -> u8 {
    if 65 <= b <= 90 {
        (b + 32) as u8
    } else {
        b
    }
}

/// A byte string with every ASCII letter in lower case.
pub open spec fn fold_case(text: Seq<u8>) -> Seq<u8> {
    Seq::new(text.len(), |i: int| ascii_lower(text[i]))
}

/// The mode that a mode text names, letter case aside.
pub open spec fn decode_mode(text: Seq<u8>) -> Option<Mode> {
    let folded = fold_case(text);
    if folded == netascii_text() {
        Some(Mode::NetAscii)
    } else if folded == octet_text() {
        Some(Mode::Octet)
    } else if folded == mail_text() {
        Some(Mode::Mail)
    } else {
        None
    }
}

/// Whether `text`, folded to lower case, is exactly `word`.
fn matches_folded(text: &[u8], word: &[u8]) -> (same: bool)
    ensures
        same == (fold_case(text@) == word@),
{
    if text.len() != word.len() {
        return false;
    }
    let mut i: usize = 0;
    while i < text.len()
        invariant
            i <= text.len(),
            text.len() == word.len(),
            forall|j: int| 0 <= j < i ==> ascii_lower(text@[j]) == word@[j],
        decreases text.len() - i,
    {
        let b: u8 = text[i];
        let folded: u8 = if 65 <= b && b <= 90 {
            b + 32
        } else {
            b
        };
        if folded != word[i] {
            assert(fold_case(text@)[i as int] != word@[i as int]);
            return false;
        }
        i += 1;
    }
    assert(fold_case(text@) =~= word@);
    true
}

impl Mode {
    /// The mode's wire text, in lower case and without a terminator.
    pub fn encode(&self) -> (text: &[u8])
        ensures
            text@ == mode_text(*self),
    {
        match self {
            Mode::NetAscii => {
                let t: &[u8] = &['n' as u8, 'e' as u8, 't' as u8, 'a' as u8, 's' as u8, 'c' as u8, 'i' as u8, 'i' as u8];
                assert(t@ =~= netascii_text());
                t
            },
            Mode::Octet => {
                let t: &[u8] = &['o' as u8, 'c' as u8, 't' as u8, 'e' as u8, 't' as u8];
                assert(t@ =~= octet_text());
                t
            },
            Mode::Mail => {
                let t: &[u8] = &['m' as u8, 'a' as u8, 'i' as u8, 'l' as u8];
                assert(t@ =~= mail_text());
                t
            },
        }
    }

    /// Reads a mode from its wire text, matched without regard to letter case.
    pub fn decode(text: &[u8]) -> (mode: Option<Mode>)
        ensures
            mode == decode_mode(text@),
    {
        if matches_folded(text, Mode::NetAscii.encode()) {
            Some(Mode::NetAscii)
        } else if matches_folded(text, Mode::Octet.encode()) {
            Some(Mode::Octet)
        } else if matches_folded(text, Mode::Mail.encode()) {
            Some(Mode::Mail)
        } else {
            None
        }
    }
}

/// Why a datagram could not be decoded.
#[derive(Debug, PartialEq, Eq, Structural, Clone, Copy)]
pub enum Error {
    /// The datagram does not start with one of the five opcodes.
    InvalidOpcode,
    /// A field after the opcode is cut short, lacks its terminating zero
    /// byte, is not text, or names no known mode.
    MalformedField,
}

impl Error {
    /// A short description of the failure.
    pub fn message(&self) -> (text: String)
        ensures
            text@ == (match *self {
                Error::InvalidOpcode => "invalid opcode"@,
                Error::MalformedField => "malformed field"@,
            }),
    {
        match self {
            Error::InvalidOpcode => "invalid opcode".to_owned(),
            Error::MalformedField => "malformed field".to_owned(),
        }
    }
}

/// One TFTP frame as a program holds it.
#[derive(Debug)]
pub enum Packet {
    /// A read or write request: opcode, file name, zero, mode text, zero.
    Request { op_code: u16, file: String, mode: Mode },
    /// A block of file data: opcode, block number, payload. Only the first
    /// `len` bytes of `data` are payload; fewer than 512 mark the last block.
    Data { block: u16, data: [u8; 512], len: usize },
    /// The acknowledgment of the data block with the same number.
    Ack { block: u16 },
    /// An error report: opcode, code, message text, zero.
    Error { code: u16, msg: String },
}

/// One TFTP frame as a mathematical value.
pub enum Frame {
    Request { op_code: u16, file: Seq<char>, mode: Mode },
    Data { block: u16, payload: Seq<u8> },
    Ack { block: u16 },
    Error { code: u16, msg: Seq<char> },
}

impl View for Packet {
    type V = Frame;

    open spec fn view(&self) -> Frame {
        match *self {
            Packet::Request { op_code, file, mode } => Frame::Request { op_code, file: file@, mode },
            Packet::Data { block, data, len } => Frame::Data {
                block,
                payload: data@.take(len as int),
            },
            Packet::Ack { block } => Frame::Ack { block },
            Packet::Error { code, msg } => Frame::Error { code, msg: msg@ },
        }
    }
}

/// A 16-bit number, most significant byte first.
pub open spec fn be16(x: u16) -> Seq<u8> {
    seq![(x / 256) as u8, (x % 256) as u8]
}

/// A 16-bit number, least significant byte first.
pub open spec fn le16(x: u16) -> Seq<u8> {
    seq![(x % 256) as u8, (x / 256) as u8]
}

/// The 16-bit number whose more significant byte is `hi`.
pub open spec fn join16(hi: u8, lo: u8) -> u16 {
    (hi as int * 256 + lo as int) as u16
}

/// The bytes of a frame on the wire.
pub open spec fn encode_frame(frame: Frame) -> Seq<u8> {
    match frame {
        Frame::Request { op_code, file, mode } => be16(op_code) + encode_utf8(file) + seq![0u8]
            + mode_text(mode) + seq![0u8],
        Frame::Data { block, payload } => be16(DATA_OPCODE) + be16(block) + payload,
        Frame::Ack { block } => be16(ACK_OPCODE) + be16(block),
        Frame::Error { code, msg } => be16(ERROR_OPCODE) + le16(code) + encode_utf8(msg)
            + seq![0u8],
    }
}

/// The number of bytes in front of the first zero byte, or the whole length
/// where there is none.
pub open spec fn field_len(bytes: Seq<u8>) -> nat
    decreases bytes.len(),
{
    if bytes.len() == 0 || bytes[0] == 0 {
        0
    } else {
        1 + field_len(bytes.drop_first())
    }
}

/// Decodes the part of a request that follows the opcode: a file name up to
/// the first zero byte, then a mode text up to the next one. Both zero bytes
/// must be there, the name must be UTF-8 and the mode text must name a mode;
/// what follows the second zero byte is not looked at.
pub open spec fn decode_request(op_code: u16, body: Seq<u8>) -> Result<Frame, Error> {
    let n = field_len(body) as int;
    let tail = body.skip(n + 1);
    let m = field_len(tail) as int;
    if n >= body.len() || m >= tail.len() || !valid_utf8(body.take(n)) {
        Err(Error::MalformedField)
    } else {
        match decode_mode(tail.take(m)) {
            Some(mode) => Ok(Frame::Request { op_code, file: decode_utf8(body.take(n)), mode }),
            None => Err(Error::MalformedField),
        }
    }
}

/// Decodes the part of a data frame that follows the opcode: two bytes of
/// block number, then the payload, which is all that follows, cut at 512
/// bytes.
pub open spec fn decode_data(body: Seq<u8>) -> Result<Frame, Error> {
    if body.len() < 2 {
        Err(Error::MalformedField)
    } else {
        let rest = body.skip(2);
        Ok(
            Frame::Data {
                block: join16(body[0], body[1]),
                payload: if rest.len() <= 512 {
                    rest
                } else {
                    rest.take(512)
                },
            },
        )
    }
}

/// Decodes the part of an acknowledgment that follows the opcode: two bytes
/// of block number; what follows them is not looked at.
pub open spec fn decode_ack(body: Seq<u8>) -> Result<Frame, Error> {
    if body.len() < 2 {
        Err(Error::MalformedField)
    } else {
        Ok(Frame::Ack { block: join16(body[0], body[1]) })
    }
}

/// Decodes the part of an error frame that follows the opcode: two bytes of
/// error code, low byte first, then a message up to the first zero byte,
/// which must be there; the message must be UTF-8.
pub open spec fn decode_error(body: Seq<u8>) -> Result<Frame, Error> {
    if body.len() < 2 {
        Err(Error::MalformedField)
    } else {
        let rest = body.skip(2);
        let n = field_len(rest) as int;
        if n >= rest.len() || !valid_utf8(rest.take(n)) {
            Err(Error::MalformedField)
        } else {
            Ok(Frame::Error { code: join16(body[1], body[0]), msg: decode_utf8(rest.take(n)) })
        }
    }
}

/// The frame that a datagram holds, or the reason why it holds none: the
/// opcode is not one of the five (or not even there), or what follows it is
/// malformed.
pub open spec fn decode_frame(bytes: Seq<u8>) -> Result<Frame, Error> {
    if bytes.len() < 2 {
        Err(Error::InvalidOpcode)
    } else {
        let op_code = join16(bytes[0], bytes[1]);
        let body = bytes.skip(2);
        if op_code == READ_OPCODE || op_code == WRITE_OPCODE {
            decode_request(op_code, body)
        } else if op_code == DATA_OPCODE {
            decode_data(body)
        } else if op_code == ACK_OPCODE {
            decode_ack(body)
        } else if op_code == ERROR_OPCODE {
            decode_error(body)
        } else {
            Err(Error::InvalidOpcode)
        }
    }
}

/// The first position that holds a zero, or the length where none does, is
/// `field_len`.
pub proof fn lemma_field_len_is(bytes: Seq<u8>, n: int)
    requires
        0 <= n <= bytes.len(),
        forall|j: int| 0 <= j < n ==> bytes[j] != 0,
        n < bytes.len() ==> bytes[n] == 0,
    ensures
        field_len(bytes) == n,
    decreases n,
{
    if n > 0 {
        let rest = bytes.drop_first();
        assert forall|j: int| 0 <= j < n - 1 implies rest[j] != 0 by {
            assert(rest[j] == bytes[j + 1]);
        }
        lemma_field_len_is(rest, n - 1);
    }
}

/// Wraps `core::str::from_utf8`: the bytes are accepted exactly when they are
/// well-formed UTF-8, and the text handed back is then the one that these
/// bytes encode. Nothing of this is proved here.
#[verifier::external_body]
fn text_of<'a>(bytes: &'a [u8]) -> (text: Option<&'a str>)
    ensures
        text is Some <==> valid_utf8(bytes@),
        text matches Some(s) ==> encode_utf8(s@) == bytes@,
{
    match core::str::from_utf8(bytes) {
        Ok(s) => Some(s),
        Err(_) => None,
    }
}

/// Appends `src` to `out`.
fn append_bytes(out: &mut Vec<u8>, src: &[u8])
    ensures
        final(out)@ == old(out)@ + src@,
{
    let mut i: usize = 0;
    while i < src.len()
        invariant
            i <= src.len(),
            out@ == old(out)@ + src@.take(i as int),
        decreases src.len() - i,
    {
        out.push(src[i]);
        assert(src@.take(i + 1) =~= src@.take(i as int).push(src@[i as int]));
        i += 1;
    }
    assert(src@.take(i as int) =~= src@);
}

/// Appends a 16-bit number to `out`, most significant byte first.
fn append_be16(out: &mut Vec<u8>, x: u16)
    ensures
        final(out)@ == old(out)@ + be16(x),
{
    out.push((x / 256) as u8);
    out.push((x % 256) as u8);
    assert(out@ =~= old(out)@ + be16(x));
}

/// Appends a 16-bit number to `out`, least significant byte first.
fn append_le16(out: &mut Vec<u8>, x: u16)
    ensures
        final(out)@ == old(out)@ + le16(x),
{
    out.push((x % 256) as u8);
    out.push((x / 256) as u8);
    assert(out@ =~= old(out)@ + le16(x));
}

/// Joins two bytes into a 16-bit number, `hi` being the more significant.
fn read16(hi: u8, lo: u8) -> (x: u16)
    ensures
        x == join16(hi, lo),
{
    (hi as u16) * 256 + (lo as u16)
}

/// Finds the zero byte that ends the text field starting at `start`.
///
/// Succeeds with the position of the first zero byte at or after `start`,
/// and fails exactly when no byte from `start` on is zero. No byte outside
/// the buffer is looked at; the last byte of the buffer is.
pub fn read_until_zero_byte(bytes: &[u8], start: usize) -> (end: Result<usize, Error>)
    ensures
        match end {
            Ok(i) => {
                &&& start <= i < bytes@.len()
                &&& bytes@[i as int] == 0
                &&& forall|j: int| start <= j < i ==> bytes@[j] != 0
                &&& i - start == field_len(bytes@.skip(start as int))
            },
            Err(e) => {
                &&& e == Error::MalformedField
                &&& forall|j: int| start <= j < bytes@.len() ==> bytes@[j] != 0
                &&& start <= bytes@.len() ==> field_len(bytes@.skip(start as int)) == bytes@.len()
                    - start
            },
        },
{
    if start > bytes.len() {
        return Err(Error::MalformedField);
    }
    let ghost field = bytes@.skip(start as int);
    let mut i: usize = start;
    while i < bytes.len()
        invariant
            start <= i <= bytes.len(),
            field == bytes@.skip(start as int),
            forall|j: int| start <= j < i ==> bytes@[j] != 0,
        decreases bytes.len() - i,
    {
        if bytes[i] == 0 {
            proof {
                assert forall|j: int| 0 <= j < i - start implies field[j] != 0 by {
                    assert(field[j] == bytes@[j + start]);
                }
                lemma_field_len_is(field, i - start);
            }
            return Ok(i);
        }
        i += 1;
    }
    proof {
        assert forall|j: int| 0 <= j < bytes@.len() - start implies field[j] != 0 by {
            assert(field[j] == bytes@[j + start]);
        }
        lemma_field_len_is(field, bytes@.len() - start);
    }
    Err(Error::MalformedField)
}

/// Reads the text field that starts at `start`: the text and the position
/// just behind its terminating zero byte.
fn read_text(bytes: &[u8], start: usize) -> (r: Option<(String, usize)>)
    requires
        start <= bytes@.len(),
    ensures
        ({
            let field = bytes@.skip(start as int);
            let n = field_len(field) as int;
            match r {
                Some((text, next)) => n < field.len() && valid_utf8(field.take(n)) && text@
                    == decode_utf8(field.take(n)) && next == start + n + 1,
                None => n >= field.len() || !valid_utf8(field.take(n)),
            }
        }),
{
    broadcast use vstd::utf8::encode_utf8_decode_utf8;

    let total: usize = bytes.len();
    match read_until_zero_byte(bytes, start) {
        Err(_) => None,
        Ok(end) => {
            assert(end < total);
            let raw = vstd::slice::slice_subrange(bytes, start, end);
            assert(raw@ =~= bytes@.skip(start as int).take(end - start));
            match text_of(raw) {
                None => None,
                Some(s) => Some((s.to_owned(), end + 1)),
            }
        },
    }
}

/// Decodes a request: the file name and the mode behind the opcode.
fn parse_rwrq(bytes: &[u8], op_code: u16) -> (r: Result<Packet, Error>)
    requires
        bytes@.len() >= 2,
    ensures
        match r {
            Ok(p) => decode_request(op_code, bytes@.skip(2)) == Ok::<Frame, Error>(p@) && p.wf(),
            Err(e) => decode_request(op_code, bytes@.skip(2)) == Err::<Frame, Error>(e),
        },
{
    let ghost body = bytes@.skip(2);
    let ghost n = field_len(body) as int;
    let (file, next) = match read_text(bytes, 2) {
        Some(found) => found,
        None => {
            return Err(Error::MalformedField);
        },
    };
    assert(bytes@.skip(next as int) =~= body.skip(n + 1));
    let end = match read_until_zero_byte(bytes, next) {
        Ok(end) => end,
        Err(_) => {
            return Err(Error::MalformedField);
        },
    };
    let raw = vstd::slice::slice_subrange(bytes, next, end);
    assert(raw@ =~= body.skip(n + 1).take(end - next));
    match Mode::decode(raw) {
        Some(mode) => Ok(Packet::Request { op_code, file, mode }),
        None => Err(Error::MalformedField),
    }
}

/// Decodes a data frame: the block number and up to 512 bytes of payload.
fn parse_data(bytes: &[u8]) -> (r: Result<Packet, Error>)
    requires
        bytes@.len() >= 2,
    ensures
        match r {
            Ok(p) => decode_data(bytes@.skip(2)) == Ok::<Frame, Error>(p@) && p.wf()
                && p.zero_padded(),
            Err(e) => decode_data(bytes@.skip(2)) == Err::<Frame, Error>(e),
        },
{
    if bytes.len() < 4 {
        return Err(Error::MalformedField);
    }
    let block = read16(bytes[2], bytes[3]);
    let len: usize = if bytes.len() - 4 <= 512 {
        bytes.len() - 4
    } else {
        512
    };
    let mut data = [0u8; 512];
    let mut i: usize = 0;
    while i < len
        invariant
            i <= len <= 512,
            len + 4 <= bytes@.len(),
            forall|j: int| 0 <= j < i ==> data@[j] == bytes@[j + 4],
            forall|j: int| i <= j < 512 ==> data@[j] == 0,
        decreases len - i,
    {
        data[i] = bytes[i + 4];
        i += 1;
    }
    assert(data@.take(len as int) =~= bytes@.skip(2).skip(2).take(len as int));
    assert(bytes@.len() - 4 <= 512 ==> bytes@.skip(2).skip(2).take(len as int) =~= bytes@.skip(
        2,
    ).skip(2));
    Ok(Packet::Data { block, data, len })
}

/// Decodes an acknowledgment: the block number.
fn parse_ack(bytes: &[u8]) -> (r: Result<Packet, Error>)
    requires
        bytes@.len() >= 2,
    ensures
        match r {
            Ok(p) => decode_ack(bytes@.skip(2)) == Ok::<Frame, Error>(p@) && p.wf(),
            Err(e) => decode_ack(bytes@.skip(2)) == Err::<Frame, Error>(e),
        },
{
    if bytes.len() < 4 {
        return Err(Error::MalformedField);
    }
    let block = read16(bytes[2], bytes[3]);
    Ok(Packet::Ack { block })
}

/// Decodes an error frame: the code, low byte first, and the message.
fn parse_error(bytes: &[u8]) -> (r: Result<Packet, Error>)
    requires
        bytes@.len() >= 2,
    ensures
        match r {
            Ok(p) => decode_error(bytes@.skip(2)) == Ok::<Frame, Error>(p@) && p.wf(),
            Err(e) => decode_error(bytes@.skip(2)) == Err::<Frame, Error>(e),
        },
{
    if bytes.len() < 4 {
        return Err(Error::MalformedField);
    }
    let code = read16(bytes[3], bytes[2]);
    assert(bytes@.skip(4) =~= bytes@.skip(2).skip(2));
    match read_text(bytes, 4) {
        Some((msg, _)) => Ok(Packet::Error { code, msg }),
        None => Err(Error::MalformedField),
    }
}

impl Packet {
    /// Whether the frame can go on the wire: a data frame's payload is at
    /// most 512 bytes long.
    pub open spec fn wf(&self) -> bool {
        match *self {
            Packet::Data { len, .. } => len <= 512,
            _ => true,
        }
    }

    /// Tells whether the frame can go on the wire.
    pub fn is_well_formed(&self) -> (ok: bool)
        ensures
            ok == self.wf(),
    {
        match self {
            Packet::Data { len, .. } => *len <= BLOCK_SIZE,
            _ => true,
        }
    }

    /// Whether every byte of a data frame's buffer behind the payload is zero.
    pub open spec fn zero_padded(&self) -> bool {
        match *self {
            Packet::Data { data, len, .. } => forall|j: int| len <= j < 512 ==> data@[j] == 0,
            _ => true,
        }
    }

    /// Decodes one datagram.
    ///
    /// The result is the frame that `decode_frame` gives for these bytes, or
    /// its error. A decoded data frame has zeros behind its payload.
    pub fn deserialize(bytes: &[u8]) -> (r: Result<Packet, Error>)
        ensures
            match r {
                Ok(p) => decode_frame(bytes@) == Ok::<Frame, Error>(p@) && p.wf()
                    && p.zero_padded(),
                Err(e) => decode_frame(bytes@) == Err::<Frame, Error>(e),
            },
    {
        if bytes.len() < 2 {
            return Err(Error::InvalidOpcode);
        }
        let op_code = read16(bytes[0], bytes[1]);
        if op_code == READ_OPCODE || op_code == WRITE_OPCODE {
            parse_rwrq(bytes, op_code)
        } else if op_code == DATA_OPCODE {
            parse_data(bytes)
        } else if op_code == ACK_OPCODE {
            parse_ack(bytes)
        } else if op_code == ERROR_OPCODE {
            parse_error(bytes)
        } else {
            Err(Error::InvalidOpcode)
        }
    }

    /// Encodes the frame: the bytes are exactly those of `encode_frame`, so
    /// a data frame carries its first `len` payload bytes and no more.
    pub fn serialize(&self) -> (out: Vec<u8>)
        requires
            self.wf(),
        ensures
            out@ == encode_frame(self@),
    {
        match self {
            Packet::Request { op_code, file, mode } => {
                let mut res: Vec<u8> = Vec::with_capacity(30);
                append_be16(&mut res, *op_code);
                append_bytes(&mut res, file.as_str().as_bytes());
                res.push(0);
                append_bytes(&mut res, mode.encode());
                res.push(0);
                assert(res@ =~= encode_frame(self@));
                res
            },
            Packet::Data { block, data, len } => {
                let mut res: Vec<u8> = Vec::with_capacity(516);
                append_be16(&mut res, DATA_OPCODE);
                append_be16(&mut res, *block);
                append_bytes(&mut res, vstd::slice::slice_subrange(data.as_slice(), 0, *len));
                assert(res@ =~= encode_frame(self@));
                res
            },
            Packet::Ack { block } => {
                let mut res: Vec<u8> = Vec::with_capacity(4);
                append_be16(&mut res, ACK_OPCODE);
                append_be16(&mut res, *block);
                res
            },
            Packet::Error { code, msg } => {
                let mut res: Vec<u8> = Vec::with_capacity(30);
                append_be16(&mut res, ERROR_OPCODE);
                append_le16(&mut res, *code);
                append_bytes(&mut res, msg.as_str().as_bytes());
                res.push(0);
                assert(res@ =~= encode_frame(self@));
                res
            },
        }
    }

    /// An error frame with the given code and message.
    pub fn new_error(code: u16, msg: &str) -> (p: Self)
        ensures
            p@ == (Frame::Error { code, msg: msg@ }),
            p.wf(),
    {
        Packet::Error { code, msg: msg.to_owned() }
    }

    /// A data frame whose payload is the first `len` bytes of `data`.
    pub fn new_data(block: u16, data: [u8; 512], len: usize) -> (p: Self)
        ensures
            p == (Packet::Data { block, data, len }),
    {
        Packet::Data { block, data, len }
    }

    /// The acknowledgment of block `block`.
    pub fn new_ack(block: u16) -> (p: Self)
        ensures
            p == (Packet::Ack { block }),
    {
        Packet::Ack { block }
    }
}

/// An error frame without a message.
pub open spec fn bare_error(code: u16) -> Frame {
    Frame::Error { code, msg: Seq::<char>::empty() }
}

/// An error frame with the given code and no message.
pub(crate) fn error_frame(code: u16) -> (p: Packet)
    ensures
        p@ == bare_error(code),
        p.wf(),
{
    proof {
        reveal_strlit("");
    }
    let p = Packet::new_error(code, "");
    assert(""@ =~= Seq::<char>::empty());
    p
}

/// Whether no byte is zero.
pub open spec fn no_zero_byte(bytes: Seq<u8>) -> bool {
    forall|j: int| 0 <= j < bytes.len() ==> bytes[j] != 0
}

/// Whether a text can stand in a zero-terminated field: it holds no NUL
/// character.
pub open spec fn fits_field(text: Seq<char>) -> bool {
    forall|i: int| 0 <= i < text.len() ==> text[i] != '\0'
}

/// Of the bytes that encode one character, only the single byte of NUL is
/// zero.
proof fn lemma_scalar_bytes(s: u32)
    by (bit_vector)
    ensures
        has_width_1_encoding(s) ==> (leading_byte_width_1(s) == 0 <==> s == 0),
        leading_byte_width_2(s) != 0,
        leading_byte_width_3(s) != 0,
        leading_byte_width_4(s) != 0,
        last_continuation_byte(s) != 0,
        second_last_continuation_byte(s) != 0,
        third_last_continuation_byte(s) != 0,
{
}

/// A text holds no NUL character exactly when none of its bytes on the wire
/// is zero.
pub proof fn lemma_fits_field_bytes(text: Seq<char>)
    ensures
        fits_field(text) <==> no_zero_byte(encode_utf8(text)),
    decreases text.len(),
{
    if text.len() > 0 {
        let c = text[0];
        let rest = text.drop_first();
        let head = encode_scalar(c as u32);
        let tail = encode_utf8(rest);
        let all = encode_utf8(text);
        assert(all == head + tail);
        lemma_fits_field_bytes(rest);
        lemma_scalar_bytes(c as u32);
        vstd::utf8::char_is_scalar(c);
        vstd::utf8::char_u32_cast(c, c as u32);
        vstd::utf8::char_u32_cast('\0', 0u32);
        assert(no_zero_byte(head) <==> c != '\0') by {
            if c != '\0' {
                assert(c as u32 != 0);
            } else {
                assert(head[0] == 0);
            }
        }
        if fits_field(text) {
            assert forall|i: int| 0 <= i < rest.len() implies rest[i] != '\0' by {
                assert(rest[i] == text[i + 1]);
            }
            assert forall|j: int| 0 <= j < all.len() implies all[j] != 0 by {
                if j < head.len() {
                    assert(all[j] == head[j]);
                } else {
                    assert(all[j] == tail[j - head.len()]);
                }
            }
        }
        if no_zero_byte(all) {
            assert forall|j: int| 0 <= j < head.len() implies head[j] != 0 by {
                assert(all[j] == head[j]);
            }
            assert forall|j: int| 0 <= j < tail.len() implies tail[j] != 0 by {
                assert(all[j + head.len()] == tail[j]);
            }
            assert forall|i: int| 0 <= i < text.len() implies text[i] != '\0' by {
                if i > 0 {
                    assert(rest[i - 1] == text[i]);
                }
            }
        }
    }
}

/// The frames that the wire format can carry: a request is a read or a write,
/// a payload has at most 512 bytes, and a text fits its zero-terminated field.
pub open spec fn valid_frame(frame: Frame) -> bool {
    match frame {
        Frame::Request { op_code, file, mode } => (op_code == READ_OPCODE || op_code
            == WRITE_OPCODE) && fits_field(file),
        Frame::Data { block, payload } => payload.len() <= 512,
        Frame::Ack { block } => true,
        Frame::Error { code, msg } => fits_field(msg),
    }
}

/// A mode's wire text decodes to that mode.
pub proof fn lemma_mode_round_trip(mode: Mode)
    ensures
        decode_mode(mode_text(mode)) == Some(mode),
        forall|j: int| 0 <= j < mode_text(mode).len() ==> mode_text(mode)[j] != 0,
{
    assert(fold_case(mode_text(mode)) =~= mode_text(mode));
}

/// Joining the two bytes of a 16-bit number gives the number back, in either
/// byte order.
pub proof fn lemma_join16(x: u16)
    ensures
        join16(be16(x)[0], be16(x)[1]) == x,
        join16(le16(x)[1], le16(x)[0]) == x,
{
}

/// An error code goes on the wire low byte first, right behind the opcode,
/// while a block number goes high byte first.
pub proof fn lemma_error_code_low_byte_first(code: u16, msg: Seq<char>, block: u16)
    ensures
        encode_frame(Frame::Error { code, msg })[2] == code % 256,
        encode_frame(Frame::Error { code, msg })[3] == code / 256,
        encode_frame(Frame::Ack { block })[2] == block / 256,
        encode_frame(Frame::Ack { block })[3] == block % 256,
{
}

/// A text field followed by a zero byte and anything else is read back with
/// its own length.
pub proof fn lemma_field_len_of_text(text: Seq<u8>, rest: Seq<u8>)
    requires
        forall|j: int| 0 <= j < text.len() ==> text[j] != 0,
    ensures
        field_len(text + seq![0u8] + rest) == text.len(),
{
    let all = text + seq![0u8] + rest;
    assert forall|j: int| 0 <= j < text.len() implies all[j] != 0 by {
        assert(all[j] == text[j]);
    }
    assert(all[text.len() as int] == 0);
    lemma_field_len_is(all, text.len() as int);
}

/// Decoding inverts encoding: every valid frame, encoded and decoded again,
/// is the same frame. This holds for a data frame with an empty payload and
/// for one with a full payload of 512 bytes alike.
pub proof fn lemma_decode_encode(frame: Frame)
    requires
        valid_frame(frame),
    ensures
        decode_frame(encode_frame(frame)) == Ok::<Frame, Error>(frame),
{
    broadcast use vstd::utf8::encode_utf8_decode_utf8, vstd::utf8::encode_utf8_valid_utf8;

    let bytes = encode_frame(frame);
    let body = bytes.skip(2);
    match frame {
        Frame::Request { op_code, file, mode } => {
            let name = encode_utf8(file);
            lemma_fits_field_bytes(file);
            let text = mode_text(mode);
            lemma_join16(op_code);
            lemma_mode_round_trip(mode);
            assert(body =~= name + seq![0u8] + (text + seq![0u8]));
            lemma_field_len_of_text(name, text + seq![0u8]);
            let tail = body.skip(name.len() as int + 1);
            assert(tail =~= text + seq![0u8] + Seq::<u8>::empty());
            lemma_field_len_of_text(text, Seq::<u8>::empty());
            assert(body.take(name.len() as int) =~= name);
            assert(tail.take(text.len() as int) =~= text);
        },
        Frame::Data { block, payload } => {
            lemma_join16(DATA_OPCODE);
            lemma_join16(block);
            assert(body =~= be16(block) + payload);
            assert(body.skip(2) =~= payload);
        },
        Frame::Ack { block } => {
            lemma_join16(ACK_OPCODE);
            lemma_join16(block);
            assert(body =~= be16(block));
        },
        Frame::Error { code, msg } => {
            let text = encode_utf8(msg);
            lemma_fits_field_bytes(msg);
            lemma_join16(ERROR_OPCODE);
            lemma_join16(code);
            assert(body =~= le16(code) + text + seq![0u8]);
            let rest = body.skip(2);
            assert(rest =~= text + seq![0u8] + Seq::<u8>::empty());
            lemma_field_len_of_text(text, Seq::<u8>::empty());
            assert(rest.take(text.len() as int) =~= text);
        },
    }
}

} // verus!
