//! Binary log-message decoder: a length-prefixed, multi-header, typed
//! argument wire format.
//!
//! A message is a 16-byte storage header (4-byte magic, capture
//! timestamp, originating-unit id), a standard header (flags byte,
//! counter byte, 16-bit big-endian total length, then optional unit id /
//! session id / timestamp per the flags), an optional extended header
//! (verbose flag, type, subtype, argument count, application and context
//! ids) and a payload: either self-describing typed arguments (verbose)
//! or a message id plus an opaque blob (non-verbose).
//!
//! `decode_spec` is the byte-exact mathematical definition of decoding;
//! `dlt_message` is the executable decoder, proved equal to it. Decoding
//! either yields a message plus the exact byte count consumed, reports
//! that more bytes are needed, or fails with a decode error; it never
//! consumes more than the declared total length.

use vstd::prelude::*;
use vstd::slice::{slice_subrange, slice_to_vec};

verus! {

/// Severity of a log message; lower numbers are more severe.
#[derive(Debug, Clone, Copy, PartialEq, Eq, Structural)]
pub enum LogLevel {
    Fatal,
    Error,
    Warn,
    Info,
    Debug,
    Verbose,
}

impl LogLevel {
    /// Numeric encoding used in the extended header's subtype field.
    pub open spec fn num_spec(self) -> u8 {
        match self {
            LogLevel::Fatal => 1,
            LogLevel::Error => 2,
            LogLevel::Warn => 3,
            LogLevel::Info => 4,
            LogLevel::Debug => 5,
            LogLevel::Verbose => 6,
        }
    }

    pub fn num(self) -> (r: u8)
        ensures
            r == self.num_spec(),
    {
        match self {
            LogLevel::Fatal => 1,
            LogLevel::Error => 2,
            LogLevel::Warn => 3,
            LogLevel::Info => 4,
            LogLevel::Debug => 5,
            LogLevel::Verbose => 6,
        }
    }
}

/// Fixed-size capture prefix: magic, capture timestamp, originating unit.
#[derive(Debug, Clone, Copy, PartialEq, Eq, Structural)]
pub struct StorageHeader {
    pub seconds: u32,
    pub micros: u32,
    pub ecu_id: u32,
}

/// Mandatory header: flag bits, counter, declared total message length
/// (covering everything after the storage header) and optional fields.
#[derive(Debug, Clone, Copy, PartialEq, Eq)]
pub struct StandardHeader {
    pub has_extended: bool,
    pub big_endian_payload: bool,
    pub counter: u8,
    pub length: u16,
    pub ecu_id: Option<u32>,
    pub session_id: Option<u32>,
    pub timestamp: Option<u32>,
}

/// Optional header carrying the verbose flag, message type and subtype,
/// argument count and the application / context ids.
#[derive(Debug, Clone, Copy, PartialEq, Eq, Structural)]
pub struct ExtendedHeader {
    pub verbose: bool,
    pub message_type: u8,
    pub subtype: u8,
    pub arg_count: u8,
    pub app_id: u32,
    pub context_id: u32,
}

/// One typed argument of a verbose payload. Numeric kinds carry their
/// raw (unsigned) bit pattern plus the width in bytes; interpretation is
/// the caller's.
#[derive(Debug, Clone, PartialEq, Eq)]
pub enum Argument {
    Bool(bool),
    Signed { width: u8, bits: u64 },
    Unsigned { width: u8, bits: u64 },
    Float { width: u8, bits: u64 },
    Str(Vec<u8>),
    Raw(Vec<u8>),
}

/// Mathematical value of an `Argument`.
pub enum ArgumentView {
    Bool(bool),
    Signed { width: u8, bits: u64 },
    Unsigned { width: u8, bits: u64 },
    Float { width: u8, bits: u64 },
    Str(Seq<u8>),
    Raw(Seq<u8>),
}

impl View for Argument {
    type V = ArgumentView;

    open spec fn view(&self) -> ArgumentView {
        match self {
            Argument::Bool(v) => ArgumentView::Bool(*v),
            Argument::Signed { width, bits } => ArgumentView::Signed {
                width: *width,
                bits: *bits,
            },
            Argument::Unsigned { width, bits } => ArgumentView::Unsigned {
                width: *width,
                bits: *bits,
            },
            Argument::Float { width, bits } => ArgumentView::Float {
                width: *width,
                bits: *bits,
            },
            Argument::Str(v) => ArgumentView::Str(v@),
            Argument::Raw(v) => ArgumentView::Raw(v@),
        }
    }
}

pub open spec fn args_view(s: Seq<Argument>) -> Seq<ArgumentView> {
    s.map_values(|a: Argument| a@)
}

/// Message payload: typed arguments (verbose) or message id plus blob.
#[derive(Debug, Clone, PartialEq, Eq)]
pub enum Payload {
    Verbose(Vec<Argument>),
    NonVerbose(u32, Vec<u8>),
}

pub enum PayloadView {
    Verbose(Seq<ArgumentView>),
    NonVerbose(u32, Seq<u8>),
}

impl View for Payload {
    type V = PayloadView;

    open spec fn view(&self) -> PayloadView {
        match self {
            Payload::Verbose(args) => PayloadView::Verbose(args_view(args@)),
            Payload::NonVerbose(id, blob) => PayloadView::NonVerbose(*id, blob@),
        }
    }
}

/// One decoded log record.
#[derive(Debug, Clone, PartialEq, Eq)]
pub struct Message {
    pub storage: StorageHeader,
    pub standard: StandardHeader,
    pub extended: Option<ExtendedHeader>,
    pub payload: Payload,
}

pub struct MessageView {
    pub storage: StorageHeader,
    pub standard: StandardHeader,
    pub extended: Option<ExtendedHeader>,
    pub payload: PayloadView,
}

impl View for Message {
    type V = MessageView;

    open spec fn view(&self) -> MessageView {
        MessageView {
            storage: self.storage,
            standard: self.standard,
            extended: self.extended,
            payload: self.payload@,
        }
    }
}

/// Decode failures. Malformed bytes ask for resynchronization by the
/// caller; truncated input is reported as `Incomplete`, never as an
/// error.
#[derive(Debug, Clone, Copy, PartialEq, Eq, Structural)]
pub enum DltError {
    /// The four magic bytes at the start of the storage header are wrong.
    InvalidMagic,
    /// The declared total length is smaller than the headers it implies.
    InvalidHeaderLength,
    /// The payload does not fit its description: an unsupported type-info
    /// word, arguments over- or under-running the declared length, or a
    /// non-verbose payload too short for its message id.
    InvalidPayload,
}

/// Result of one decode attempt.
#[derive(Debug, Clone, PartialEq, Eq)]
pub enum ParseOutcome {
    /// A full message span was consumed: `None` when a severity filter
    /// suppressed reconstruction; the count is the exact bytes consumed.
    Done(Option<Message>, usize),
    /// Not enough bytes yet; no bytes consumed.
    Incomplete,
    /// Malformed bytes; no bytes consumed.
    Failed(DltError),
}

pub enum ParseOutcomeView {
    Done(Option<MessageView>, int),
    Incomplete,
    Failed(DltError),
}

impl View for ParseOutcome {
    type V = ParseOutcomeView;

    open spec fn view(&self) -> ParseOutcomeView {
        match self {
            ParseOutcome::Done(m, n) => ParseOutcomeView::Done(
                match m {
                    Option::Some(msg) => Option::Some(msg@),
                    Option::None => Option::<MessageView>::None,
                },
                *n as int,
            ),
            ParseOutcome::Incomplete => ParseOutcomeView::Incomplete,
            ParseOutcome::Failed(e) => ParseOutcomeView::Failed(*e),
        }
    }
}

// ---------------------------------------------------------------------
// Byte-level readers.
// ---------------------------------------------------------------------

pub open spec fn be16(b: Seq<u8>, i: int) -> int {
    b[i] * 0x100 + b[i + 1]
}

pub open spec fn le16(b: Seq<u8>, i: int) -> int {
    b[i + 1] * 0x100 + b[i]
}

pub open spec fn be32(b: Seq<u8>, i: int) -> int {
    b[i] * 0x1000000 + b[i + 1] * 0x10000 + b[i + 2] * 0x100 + b[i + 3]
}

pub open spec fn le32(b: Seq<u8>, i: int) -> int {
    b[i + 3] * 0x1000000 + b[i + 2] * 0x10000 + b[i + 1] * 0x100 + b[i]
}

pub open spec fn rd16(b: Seq<u8>, i: int, be: bool) -> int {
    if be {
        be16(b, i)
    } else {
        le16(b, i)
    }
}

pub open spec fn rd32(b: Seq<u8>, i: int, be: bool) -> int {
    if be {
        be32(b, i)
    } else {
        le32(b, i)
    }
}

pub open spec fn rd64(b: Seq<u8>, i: int, be: bool) -> int {
    if be {
        be32(b, i) * 0x100000000 + be32(b, i + 4)
    } else {
        le32(b, i + 4) * 0x100000000 + le32(b, i)
    }
}

/// Unsigned value of `w` bytes at `i`; `w` is 1, 2, 4 or 8.
pub open spec fn rd_uint(b: Seq<u8>, i: int, w: int, be: bool) -> int {
    if w == 1 {
        b[i] as int
    } else if w == 2 {
        rd16(b, i, be)
    } else if w == 4 {
        rd32(b, i, be)
    } else {
        rd64(b, i, be)
    }
}

fn read_be16(b: &[u8], i: usize) -> (r: u16)
    requires
        i + 2 <= b@.len(),
    ensures
        r == be16(b@, i as int),
{
    let _l = b.len();
    (b[i] as u16) * 0x100 + (b[i + 1] as u16)
}

fn read_le16(b: &[u8], i: usize) -> (r: u16)
    requires
        i + 2 <= b@.len(),
    ensures
        r == le16(b@, i as int),
{
    let _l = b.len();
    (b[i + 1] as u16) * 0x100 + (b[i] as u16)
}

fn read_be32(b: &[u8], i: usize) -> (r: u32)
    requires
        i + 4 <= b@.len(),
    ensures
        r == be32(b@, i as int),
{
    let _l = b.len();
    (b[i] as u32) * 0x1000000 + (b[i + 1] as u32) * 0x10000 + (b[i + 2] as u32) * 0x100 + (b[i
        + 3] as u32)
}

fn read_le32(b: &[u8], i: usize) -> (r: u32)
    requires
        i + 4 <= b@.len(),
    ensures
        r == le32(b@, i as int),
{
    let _l = b.len();
    (b[i + 3] as u32) * 0x1000000 + (b[i + 2] as u32) * 0x10000 + (b[i + 1] as u32) * 0x100 + (b[i]
        as u32)
}

fn read_u16(b: &[u8], i: usize, be: bool) -> (r: u16)
    requires
        i + 2 <= b@.len(),
    ensures
        r == rd16(b@, i as int, be),
{
    if be {
        read_be16(b, i)
    } else {
        read_le16(b, i)
    }
}

fn read_u32(b: &[u8], i: usize, be: bool) -> (r: u32)
    requires
        i + 4 <= b@.len(),
    ensures
        r == rd32(b@, i as int, be),
{
    if be {
        read_be32(b, i)
    } else {
        read_le32(b, i)
    }
}

fn read_u64(b: &[u8], i: usize, be: bool) -> (r: u64)
    requires
        i + 8 <= b@.len(),
    ensures
        r == rd64(b@, i as int, be),
{
    let _l = b.len();
    if be {
        (read_be32(b, i) as u64) * 0x100000000 + (read_be32(b, i + 4) as u64)
    } else {
        (read_le32(b, i + 4) as u64) * 0x100000000 + (read_le32(b, i) as u64)
    }
}

// ---------------------------------------------------------------------
// Header flag bits.
// ---------------------------------------------------------------------

pub open spec fn flag_extended(f: u8) -> bool {
    f % 2 == 1
}

pub open spec fn flag_big_endian(f: u8) -> bool {
    (f / 2) % 2 == 1
}

pub open spec fn flag_ecu(f: u8) -> bool {
    (f / 4) % 2 == 1
}

pub open spec fn flag_session(f: u8) -> bool {
    (f / 8) % 2 == 1
}

pub open spec fn flag_timestamp(f: u8) -> bool {
    (f / 16) % 2 == 1
}

/// Size of the standard header (4 fixed bytes plus the optional fields
/// the flags announce).
pub open spec fn std_header_size(f: u8) -> int {
    4 + (if flag_ecu(f) {
        4int
    } else {
        0
    }) + (if flag_session(f) {
        4int
    } else {
        0
    }) + (if flag_timestamp(f) {
        4int
    } else {
        0
    })
}

/// Least declared length the flags allow: standard header plus the
/// 10-byte extended header when announced.
pub open spec fn min_declared_length(f: u8) -> int {
    std_header_size(f) + (if flag_extended(f) {
        10int
    } else {
        0
    })
}

pub open spec fn magic_ok(b: Seq<u8>) -> bool {
    b[0] == 0x44 && b[1] == 0x4c && b[2] == 0x54 && b[3] == 0x01
}


// ---------------------------------------------------------------------
// The mathematical decoder.
// ---------------------------------------------------------------------

/// Byte width of an integer argument for a given length indicator;
/// 0 marks an unsupported indicator.
pub open spec fn tyle_width(t: int) -> int {
    if t == 1 {
        1
    } else if t == 2 {
        2
    } else if t == 3 {
        4
    } else if t == 4 {
        8
    } else {
        0
    }
}

/// Byte width of a float argument for a given length indicator.
pub open spec fn float_width(t: int) -> int {
    if t == 3 {
        4
    } else if t == 4 {
        8
    } else {
        0
    }
}

/// Parse one typed argument at the front of `p`: a 32-bit type-info
/// word, then the kind's fixed or length-prefixed bytes. `None` marks a
/// malformed argument (unsupported type info, or bytes running past the
/// declared payload boundary).
#[verifier::opaque]
pub open spec fn parse_arg(p: Seq<u8>, be: bool) -> Option<(ArgumentView, int)> {
    if p.len() < 4 {
        Option::None
    } else {
        let ti = rd32(p, 0, be);
        let tyle = ti % 16;
        let is_bool = (ti / 0x10) % 2 == 1;
        let is_sint = (ti / 0x20) % 2 == 1;
        let is_uint = (ti / 0x40) % 2 == 1;
        let is_float = (ti / 0x80) % 2 == 1;
        let is_array = (ti / 0x100) % 2 == 1;
        let is_string = (ti / 0x200) % 2 == 1;
        let is_raw = (ti / 0x400) % 2 == 1;
        let is_vari = (ti / 0x800) % 2 == 1;
        let is_fixp = (ti / 0x1000) % 2 == 1;
        let is_trai = (ti / 0x2000) % 2 == 1;
        let is_stru = (ti / 0x4000) % 2 == 1;
        let others = !is_sint && !is_uint && !is_float && !is_string && !is_raw;
        if is_array || is_vari || is_fixp || is_trai || is_stru {
            Option::None
        } else if is_bool && others {
            if p.len() < 5 {
                Option::None
            } else {
                Option::Some((ArgumentView::Bool(p[4] != 0), 5int))
            }
        } else if is_sint && !is_bool && !is_uint && !is_float && !is_string && !is_raw {
            let w = tyle_width(tyle);
            if w == 0 || p.len() < 4 + w {
                Option::None
            } else {
                Option::Some(
                    (
                        ArgumentView::Signed { width: w as u8, bits: rd_uint(p, 4, w, be) as u64 },
                        4 + w,
                    ),
                )
            }
        } else if is_uint && !is_bool && !is_sint && !is_float && !is_string && !is_raw {
            let w = tyle_width(tyle);
            if w == 0 || p.len() < 4 + w {
                Option::None
            } else {
                Option::Some(
                    (
                        ArgumentView::Unsigned {
                            width: w as u8,
                            bits: rd_uint(p, 4, w, be) as u64,
                        },
                        4 + w,
                    ),
                )
            }
        } else if is_float && !is_bool && !is_sint && !is_uint && !is_string && !is_raw {
            let w = float_width(tyle);
            if w == 0 || p.len() < 4 + w {
                Option::None
            } else {
                Option::Some(
                    (
                        ArgumentView::Float { width: w as u8, bits: rd_uint(p, 4, w, be) as u64 },
                        4 + w,
                    ),
                )
            }
        } else if is_string && !is_bool && !is_sint && !is_uint && !is_float && !is_raw {
            if p.len() < 6 {
                Option::None
            } else {
                let l = rd16(p, 4, be);
                if p.len() < 6 + l {
                    Option::None
                } else {
                    Option::Some((ArgumentView::Str(p.subrange(6, 6 + l)), 6 + l))
                }
            }
        } else if is_raw && !is_bool && !is_sint && !is_uint && !is_float && !is_string {
            if p.len() < 6 {
                Option::None
            } else {
                let l = rd16(p, 4, be);
                if p.len() < 6 + l {
                    Option::None
                } else {
                    Option::Some((ArgumentView::Raw(p.subrange(6, 6 + l)), 6 + l))
                }
            }
        } else {
            Option::None
        }
    }
}

/// Parse exactly `n` arguments filling `p` completely: leftover bytes
/// after the last argument are as malformed as running out of bytes.
#[verifier::opaque]
pub open spec fn parse_args(p: Seq<u8>, n: int, be: bool) -> Option<Seq<ArgumentView>>
    decreases n,
{
    if n <= 0 {
        if p.len() == 0 {
            Option::Some(Seq::<ArgumentView>::empty())
        } else {
            Option::None
        }
    } else {
        match parse_arg(p, be) {
            Option::None => Option::None,
            Option::Some((a, sz)) => match parse_args(p.skip(sz), n - 1, be) {
                Option::None => Option::None,
                Option::Some(rest) => Option::Some(seq![a] + rest),
            },
        }
    }
}

pub open spec fn storage_spec(b: Seq<u8>) -> StorageHeader {
    StorageHeader {
        seconds: be32(b, 4) as u32,
        micros: be32(b, 8) as u32,
        ecu_id: be32(b, 12) as u32,
    }
}

pub open spec fn standard_spec(b: Seq<u8>) -> StandardHeader {
    let f = b[16];
    StandardHeader {
        has_extended: flag_extended(f),
        big_endian_payload: flag_big_endian(f),
        counter: b[17],
        length: be16(b, 18) as u16,
        ecu_id: if flag_ecu(f) {
            Option::Some(be32(b, 20) as u32)
        } else {
            Option::None
        },
        session_id: if flag_session(f) {
            Option::Some(
                be32(
                    b,
                    20 + (if flag_ecu(f) {
                        4int
                    } else {
                        0
                    }),
                ) as u32,
            )
        } else {
            Option::None
        },
        timestamp: if flag_timestamp(f) {
            Option::Some(
                be32(
                    b,
                    20 + (if flag_ecu(f) {
                        4int
                    } else {
                        0
                    }) + (if flag_session(f) {
                        4int
                    } else {
                        0
                    }),
                ) as u32,
            )
        } else {
            Option::None
        },
    }
}

pub open spec fn extended_spec(b: Seq<u8>) -> ExtendedHeader {
    let o = 16 + std_header_size(b[16]);
    ExtendedHeader {
        verbose: b[o] % 2 == 1,
        message_type: ((b[o] / 2) % 8) as u8,
        subtype: (b[o] / 16) as u8,
        arg_count: b[o + 1],
        app_id: be32(b, o + 2) as u32,
        context_id: be32(b, o + 6) as u32,
    }
}

/// The declared payload: what lies between the headers and the declared
/// total length.
pub open spec fn payload_spec(b: Seq<u8>) -> Seq<u8> {
    b.subrange(16 + min_declared_length(b[16]), 16 + be16(b, 18))
}

/// A supplied minimum severity suppresses reconstruction of log messages
/// that are less severe (numerically greater) than it.
pub open spec fn filtered_out(e: ExtendedHeader, min: Option<LogLevel>) -> bool {
    match min {
        Option::None => false,
        Option::Some(lvl) => e.message_type == 0 && 1 <= e.subtype <= 6 && e.subtype
            > lvl.num_spec(),
    }
}

pub open spec fn nonverbose_spec(b: Seq<u8>, ext: Option<ExtendedHeader>) -> ParseOutcomeView {
    let p = payload_spec(b);
    let total = 16 + be16(b, 18);
    if p.len() < 4 {
        ParseOutcomeView::Failed(DltError::InvalidPayload)
    } else {
        ParseOutcomeView::Done(
            Option::Some(
                MessageView {
                    storage: storage_spec(b),
                    standard: standard_spec(b),
                    extended: ext,
                    payload: PayloadView::NonVerbose(
                        rd32(p, 0, flag_big_endian(b[16])) as u32,
                        p.skip(4),
                    ),
                },
            ),
            total,
        )
    }
}

/// Decoding once the whole declared span is available and the headers
/// are plausible.
pub open spec fn decode_message_spec(b: Seq<u8>, min: Option<LogLevel>) -> ParseOutcomeView {
    let f = b[16];
    let total = 16 + be16(b, 18);
    if flag_extended(f) {
        let e = extended_spec(b);
        if filtered_out(e, min) {
            ParseOutcomeView::Done(Option::None, total)
        } else if e.verbose {
            match parse_args(payload_spec(b), e.arg_count as int, flag_big_endian(f)) {
                Option::None => ParseOutcomeView::Failed(DltError::InvalidPayload),
                Option::Some(args) => ParseOutcomeView::Done(
                    Option::Some(
                        MessageView {
                            storage: storage_spec(b),
                            standard: standard_spec(b),
                            extended: Option::Some(e),
                            payload: PayloadView::Verbose(args),
                        },
                    ),
                    total,
                ),
            }
        } else {
            nonverbose_spec(b, Option::Some(e))
        }
    } else {
        nonverbose_spec(b, Option::None)
    }
}

/// The decoder, mathematically: from raw bytes to exactly one of a
/// decoded (or severity-suppressed) message with its consumed span, a
/// request for more bytes, or a decode error.
pub open spec fn decode_spec(b: Seq<u8>, min: Option<LogLevel>) -> ParseOutcomeView {
    if b.len() >= 4 && !magic_ok(b) {
        ParseOutcomeView::Failed(DltError::InvalidMagic)
    } else if b.len() < 20 {
        ParseOutcomeView::Incomplete
    } else {
        let length = be16(b, 18);
        if length < min_declared_length(b[16]) {
            ParseOutcomeView::Failed(DltError::InvalidHeaderLength)
        } else if b.len() < 16 + length {
            ParseOutcomeView::Incomplete
        } else {
            decode_message_spec(b, min)
        }
    }
}


// ---------------------------------------------------------------------
// The executable decoder.
// ---------------------------------------------------------------------

/// One argument at offset `off` of the declared payload.
fn parse_one_arg(pay: &[u8], off: usize, be: bool) -> (r: Option<(Argument, usize)>)
    requires
        off <= pay@.len(),
    ensures
        match r {
            Option::Some(p) => {
                &&& parse_arg(pay@.skip(off as int), be) == Option::Some((p.0@, p.1 as int))
                &&& off + p.1 <= pay@.len()
                &&& p.1 >= 4
            },
            Option::None => parse_arg(pay@.skip(off as int), be) is None,
        },
{
    proof {
        reveal(parse_arg);
    }
    let ghost p = pay@.skip(off as int);
    let plen = pay.len();
    let avail = plen - off;
    if avail < 4 {
        return Option::None;
    }
    let ti = read_u32(pay, off, be);
    proof {
        assert(p.len() == avail);
        assert(p =~= pay@.subrange(off as int, pay@.len() as int));
        assert(rd32(p, 0, be) == rd32(pay@, off as int, be));
    }
    let tyle = ti % 16;
    let is_bool = (ti / 0x10) % 2 == 1;
    let is_sint = (ti / 0x20) % 2 == 1;
    let is_uint = (ti / 0x40) % 2 == 1;
    let is_float = (ti / 0x80) % 2 == 1;
    let is_array = (ti / 0x100) % 2 == 1;
    let is_string = (ti / 0x200) % 2 == 1;
    let is_raw = (ti / 0x400) % 2 == 1;
    let is_vari = (ti / 0x800) % 2 == 1;
    let is_fixp = (ti / 0x1000) % 2 == 1;
    let is_trai = (ti / 0x2000) % 2 == 1;
    let is_stru = (ti / 0x4000) % 2 == 1;
    let others = !is_sint && !is_uint && !is_float && !is_string && !is_raw;
    if is_array || is_vari || is_fixp || is_trai || is_stru {
        Option::None
    } else if is_bool && others {
        if avail < 5 {
            Option::None
        } else {
            let v = pay[off + 4];
            Option::Some((Argument::Bool(v != 0), 5))
        }
    } else if is_sint && !is_bool && !is_uint && !is_float && !is_string && !is_raw {
        match read_sized(pay, off, be, tyle, avail) {
            Option::None => Option::None,
            Option::Some(wb) => Option::Some(
                (Argument::Signed { width: wb.0, bits: wb.1 }, 4 + wb.0 as usize),
            ),
        }
    } else if is_uint && !is_bool && !is_sint && !is_float && !is_string && !is_raw {
        match read_sized(pay, off, be, tyle, avail) {
            Option::None => Option::None,
            Option::Some(wb) => Option::Some(
                (Argument::Unsigned { width: wb.0, bits: wb.1 }, 4 + wb.0 as usize),
            ),
        }
    } else if is_float && !is_bool && !is_sint && !is_uint && !is_string && !is_raw {
        let w: usize = if tyle == 3 {
            4
        } else if tyle == 4 {
            8
        } else {
            0
        };
        if w == 0 || avail < 4 + w {
            Option::None
        } else {
            let bits: u64 = if w == 4 {
                read_u32(pay, off + 4, be) as u64
            } else {
                read_u64(pay, off + 4, be)
            };
            proof {
                assert(rd_uint(p, 4, w as int, be) == rd_uint(pay@, off + 4, w as int, be));
            }
            Option::Some((Argument::Float { width: w as u8, bits }, 4 + w))
        }
    } else if is_string && !is_bool && !is_sint && !is_uint && !is_float && !is_raw {
        match read_prefixed(pay, off, be, avail) {
            Option::None => Option::None,
            Option::Some(v) => {
                let n = 6 + v.len();
                Option::Some((Argument::Str(v), n))
            },
        }
    } else if is_raw && !is_bool && !is_sint && !is_uint && !is_float && !is_string {
        match read_prefixed(pay, off, be, avail) {
            Option::None => Option::None,
            Option::Some(v) => {
                let n = 6 + v.len();
                Option::Some((Argument::Raw(v), n))
            },
        }
    } else {
        Option::None
    }
}

/// An integer argument body of 1, 2, 4 or 8 bytes after the type-info
/// word at `off`; the width is chosen by the length indicator `tyle`.
fn read_sized(pay: &[u8], off: usize, be: bool, tyle: u32, avail: usize) -> (r: Option<(u8, u64)>)
    requires
        off <= pay@.len(),
        avail == pay@.len() - off,
        avail >= 4,
    ensures
        match r {
            Option::Some(wb) => {
                &&& wb.0 == tyle_width(tyle as int)
                &&& tyle_width(tyle as int) != 0
                &&& 4 + tyle_width(tyle as int) <= pay@.skip(off as int).len()
                &&& wb.1 == rd_uint(pay@.skip(off as int), 4, tyle_width(tyle as int), be)
            },
            Option::None => tyle_width(tyle as int) == 0 || pay@.skip(off as int).len() < 4
                + tyle_width(tyle as int),
        },
{
    let ghost p = pay@.skip(off as int);
    let _plen = pay.len();
    let w: usize = if tyle == 1 {
        1
    } else if tyle == 2 {
        2
    } else if tyle == 3 {
        4
    } else if tyle == 4 {
        8
    } else {
        0
    };
    if w == 0 || avail < 4 + w {
        return Option::None;
    }
    let bits: u64 = if w == 1 {
        pay[off + 4] as u64
    } else if w == 2 {
        read_u16(pay, off + 4, be) as u64
    } else if w == 4 {
        read_u32(pay, off + 4, be) as u64
    } else {
        read_u64(pay, off + 4, be)
    };
    proof {
        assert(p.len() == avail);
        assert(rd_uint(p, 4, w as int, be) == rd_uint(pay@, off + 4, w as int, be));
    }
    Option::Some((w as u8, bits))
}

/// A 16-bit-length-prefixed body (string or raw blob) after the
/// type-info word at `off`.
fn read_prefixed(pay: &[u8], off: usize, be: bool, avail: usize) -> (r: Option<Vec<u8>>)
    requires
        off <= pay@.len(),
        avail == pay@.len() - off,
        avail >= 4,
    ensures
        ({
            let p = pay@.skip(off as int);
            match r {
                Option::Some(v) => {
                    &&& p.len() >= 6
                    &&& 6 + rd16(p, 4, be) <= p.len()
                    &&& v@ == p.subrange(6, 6 + rd16(p, 4, be))
                    &&& v@.len() == rd16(p, 4, be)
                },
                Option::None => p.len() < 6 || p.len() < 6 + rd16(p, 4, be),
            }
        }),
{
    let ghost p = pay@.skip(off as int);
    let _plen = pay.len();
    if avail < 6 {
        return Option::None;
    }
    let l = read_u16(pay, off + 4, be) as usize;
    proof {
        assert(p.len() == avail);
        assert(rd16(p, 4, be) == rd16(pay@, off + 4, be));
    }
    if avail < 6 + l {
        return Option::None;
    }
    let v = slice_to_vec(slice_subrange(pay, off + 6, off + 6 + l));
    proof {
        assert(v@ =~= p.subrange(6, 6 + l as int));
    }
    Option::Some(v)
}


/// All `argc` arguments of a verbose payload; fails where the
/// mathematical parse fails.
#[verifier::rlimit(60)]
fn parse_verbose_args(pay: &[u8], argc: u8, be: bool) -> (r: Option<Vec<Argument>>)
    ensures
        match r {
            Option::Some(v) => parse_args(pay@, argc as int, be) == Option::Some(args_view(v@)),
            Option::None => parse_args(pay@, argc as int, be) is None,
        },
{
    let _plen = pay.len();
    let mut args: Vec<Argument> = Vec::new();
    let mut off: usize = 0;
    let mut k: usize = 0;
    let n = argc as usize;
    proof {
        assert(pay@.skip(0) =~= pay@);
        assert(args_view(args@) =~= Seq::<ArgumentView>::empty());
        let r0 = parse_args(pay@, n as int, be);
        if r0 is Some {
            assert(Seq::<ArgumentView>::empty() + r0->0 =~= r0->0);
        }
    }
    while k < n
        invariant
            n == argc as usize,
            pay@.len() <= usize::MAX,
            k <= n,
            off <= pay@.len(),
            parse_args(pay@, n as int, be) == (match parse_args(
                pay@.skip(off as int),
                (n - k) as int,
                be,
            ) {
                Option::None => Option::<Seq<ArgumentView>>::None,
                Option::Some(rest) => Option::Some(args_view(args@) + rest),
            }),
        decreases n - k,
    {
        match parse_one_arg(pay, off, be) {
            Option::None => {
                proof {
                    reveal_with_fuel(parse_args, 2);
                    assert(parse_args(pay@.skip(off as int), (n - k) as int, be) is None);
                    assert(parse_args(pay@, n as int, be) is None);
                }
                return Option::None;
            },
            Option::Some(asz) => {
                let a = asz.0;
                let sz = asz.1;
                proof {
                    reveal_with_fuel(parse_args, 2);
                    let p_off = pay@.skip(off as int);
                    let p_next = pay@.skip(off + sz as int);
                    assert(p_off.skip(sz as int) =~= p_next);
                    let m = (n - k - 1) as int;
                    assert(parse_args(p_off, (n - k) as int, be) == (match parse_args(
                        p_next,
                        m,
                        be,
                    ) {
                        Option::None => Option::<Seq<ArgumentView>>::None,
                        Option::Some(rest2) => Option::Some(seq![a@] + rest2),
                    }));
                    assert(args_view(args@.push(a)) =~= args_view(args@) + seq![a@]);
                    if parse_args(p_next, m, be) is Some {
                        let rest2 = parse_args(p_next, m, be)->0;
                        assert(args_view(args@) + (seq![a@] + rest2) =~= (args_view(args@)
                            + seq![a@]) + rest2);
                    }
                }
                args.push(a);
                off = off + sz;
                k = k + 1;
            },
        }
    }
    if off == pay.len() {
        proof {
            reveal_with_fuel(parse_args, 2);
            assert(pay@.skip(off as int).len() == 0);
            assert(args_view(args@) + Seq::<ArgumentView>::empty() =~= args_view(args@));
        }
        Option::Some(args)
    } else {
        proof {
            reveal_with_fuel(parse_args, 2);
            assert(pay@.skip(off as int).len() > 0);
        }
        Option::None
    }
}

/// Message id and opaque blob of a non-verbose payload.
fn parse_nonverbose(pay: &[u8], be: bool) -> (r: Option<(u32, Vec<u8>)>)
    ensures
        match r {
            Option::Some(p) => {
                &&& pay@.len() >= 4
                &&& p.0 == rd32(pay@, 0, be)
                &&& p.1@ == pay@.skip(4)
            },
            Option::None => pay@.len() < 4,
        },
{
    if pay.len() < 4 {
        return Option::None;
    }
    let id = read_u32(pay, 0, be);
    let blob = slice_to_vec(slice_subrange(pay, 4, pay.len()));
    proof {
        assert(blob@ =~= pay@.skip(4));
    }
    Option::Some((id, blob))
}

/// Decode one message from the front of `input`: exactly the
/// mathematical decoder `decode_spec`, executably. On `Done` the second
/// component is the exact byte count consumed — the declared total
/// length plus the storage prefix — never more than declared; truncated
/// input yields `Incomplete`, malformed input a `Failed`.
pub fn dlt_message(input: &[u8], min_severity: Option<LogLevel>) -> (r: ParseOutcome)
    ensures
        r@ == decode_spec(input@, min_severity),
{
    let ilen = input.len();
    if ilen >= 4 && !(input[0] == 0x44 && input[1] == 0x4c && input[2] == 0x54 && input[3]
        == 0x01) {
        return ParseOutcome::Failed(DltError::InvalidMagic);
    }
    if ilen < 20 {
        return ParseOutcome::Incomplete;
    }
    let flags = input[16];
    let length = read_be16(input, 18);
    let has_ext = flags % 2 == 1;
    let be_payload = (flags / 2) % 2 == 1;
    let weid = (flags / 4) % 2 == 1;
    let wsid = (flags / 8) % 2 == 1;
    let wtms = (flags / 16) % 2 == 1;
    let mut hdr_size: usize = 4;
    if weid {
        hdr_size = hdr_size + 4;
    }
    if wsid {
        hdr_size = hdr_size + 4;
    }
    if wtms {
        hdr_size = hdr_size + 4;
    }
    let min_len: usize = if has_ext {
        hdr_size + 10
    } else {
        hdr_size
    };
    proof {
        assert(hdr_size == std_header_size(flags));
        assert(min_len == min_declared_length(flags));
    }
    if (length as usize) < min_len {
        return ParseOutcome::Failed(DltError::InvalidHeaderLength);
    }
    let total: usize = 16 + length as usize;
    if ilen < total {
        return ParseOutcome::Incomplete;
    }
    let storage = StorageHeader {
        seconds: read_be32(input, 4),
        micros: read_be32(input, 8),
        ecu_id: read_be32(input, 12),
    };
    let mut off: usize = 20;
    let ecu_id = if weid {
        let v = read_be32(input, off);
        off = off + 4;
        Option::Some(v)
    } else {
        Option::None
    };
    let session_id = if wsid {
        let v = read_be32(input, off);
        off = off + 4;
        Option::Some(v)
    } else {
        Option::None
    };
    let timestamp = if wtms {
        let v = read_be32(input, off);
        off = off + 4;
        Option::Some(v)
    } else {
        Option::None
    };
    let standard = StandardHeader {
        has_extended: has_ext,
        big_endian_payload: be_payload,
        counter: input[17],
        length,
        ecu_id,
        session_id,
        timestamp,
    };
    proof {
        assert(off == 16 + std_header_size(flags));
        assert(storage == storage_spec(input@));
        assert(standard == standard_spec(input@));
    }
    if has_ext {
        let mi = input[off];
        let ext = ExtendedHeader {
            verbose: mi % 2 == 1,
            message_type: (mi / 2) % 8,
            subtype: mi / 16,
            arg_count: input[off + 1],
            app_id: read_be32(input, off + 2),
            context_id: read_be32(input, off + 6),
        };
        proof {
            assert(ext == extended_spec(input@));
        }
        match min_severity {
            Option::Some(lvl) => {
                if ext.message_type == 0 && ext.subtype >= 1 && ext.subtype <= 6 && ext.subtype
                    > lvl.num() {
                    return ParseOutcome::Done(Option::None, total);
                }
            },
            Option::None => {},
        }
        let payload_bytes = slice_subrange(input, hdr_size + 16 + 10, total);
        proof {
            assert(payload_bytes@ == payload_spec(input@));
        }
        if ext.verbose {
            match parse_verbose_args(payload_bytes, ext.arg_count, be_payload) {
                Option::None => ParseOutcome::Failed(DltError::InvalidPayload),
                Option::Some(args) => {
                    let msg = Message {
                        storage,
                        standard,
                        extended: Option::Some(ext),
                        payload: Payload::Verbose(args),
                    };
                    ParseOutcome::Done(Option::Some(msg), total)
                },
            }
        } else {
            match parse_nonverbose(payload_bytes, be_payload) {
                Option::None => ParseOutcome::Failed(DltError::InvalidPayload),
                Option::Some(ib) => {
                    let msg = Message {
                        storage,
                        standard,
                        extended: Option::Some(ext),
                        payload: Payload::NonVerbose(ib.0, ib.1),
                    };
                    ParseOutcome::Done(Option::Some(msg), total)
                },
            }
        }
    } else {
        let payload_bytes = slice_subrange(input, hdr_size + 16, total);
        proof {
            assert(payload_bytes@ == payload_spec(input@));
        }
        match parse_nonverbose(payload_bytes, be_payload) {
            Option::None => ParseOutcome::Failed(DltError::InvalidPayload),
            Option::Some(ib) => {
                let msg = Message {
                    storage,
                    standard,
                    extended: Option::None,
                    payload: Payload::NonVerbose(ib.0, ib.1),
                };
                ParseOutcome::Done(Option::Some(msg), total)
            },
        }
    }
}


// ---------------------------------------------------------------------
// The encoder, mathematically, and the decoder laws.
// ---------------------------------------------------------------------

pub open spec fn wr16(v: int, be: bool) -> Seq<u8> {
    if be {
        seq![((v / 0x100) % 0x100) as u8, (v % 0x100) as u8]
    } else {
        seq![(v % 0x100) as u8, ((v / 0x100) % 0x100) as u8]
    }
}

pub open spec fn wr32(v: int, be: bool) -> Seq<u8> {
    if be {
        seq![
            ((v / 0x1000000) % 0x100) as u8,
            ((v / 0x10000) % 0x100) as u8,
            ((v / 0x100) % 0x100) as u8,
            (v % 0x100) as u8,
        ]
    } else {
        seq![
            (v % 0x100) as u8,
            ((v / 0x100) % 0x100) as u8,
            ((v / 0x10000) % 0x100) as u8,
            ((v / 0x1000000) % 0x100) as u8,
        ]
    }
}

pub open spec fn wr64(v: int, be: bool) -> Seq<u8> {
    if be {
        wr32(v / 0x100000000, true) + wr32(v % 0x100000000, true)
    } else {
        wr32(v % 0x100000000, false) + wr32(v / 0x100000000, false)
    }
}

pub open spec fn wr_uint(v: int, w: int, be: bool) -> Seq<u8> {
    if w == 1 {
        seq![(v % 0x100) as u8]
    } else if w == 2 {
        wr16(v, be)
    } else if w == 4 {
        wr32(v, be)
    } else {
        wr64(v, be)
    }
}

/// Length indicator announcing a `w`-byte integer body.
pub open spec fn tyle_of(w: int) -> int {
    if w == 1 {
        1
    } else if w == 2 {
        2
    } else if w == 4 {
        3
    } else {
        4
    }
}

/// Largest value (exclusive) a `w`-byte unsigned body can carry.
pub open spec fn width_bound(w: int) -> int {
    if w == 1 {
        0x100
    } else if w == 2 {
        0x10000
    } else if w == 4 {
        0x100000000
    } else {
        0x10000000000000000
    }
}

pub open spec fn wf_arg(a: ArgumentView) -> bool {
    match a {
        ArgumentView::Bool(_) => true,
        ArgumentView::Signed { width, bits } => (width == 1 || width == 2 || width == 4 || width
            == 8) && bits < width_bound(width as int),
        ArgumentView::Unsigned { width, bits } => (width == 1 || width == 2 || width == 4 || width
            == 8) && bits < width_bound(width as int),
        ArgumentView::Float { width, bits } => (width == 4 || width == 8) && bits < width_bound(
            width as int,
        ),
        ArgumentView::Str(s) => s.len() < 0x10000,
        ArgumentView::Raw(r) => r.len() < 0x10000,
    }
}

/// Type-info word of one argument.
pub open spec fn type_info_of(a: ArgumentView) -> int {
    match a {
        ArgumentView::Bool(_) => 0x10,
        ArgumentView::Signed { width, bits } => 0x20 + tyle_of(width as int),
        ArgumentView::Unsigned { width, bits } => 0x40 + tyle_of(width as int),
        ArgumentView::Float { width, bits } => 0x80 + (if width == 4 {
            3int
        } else {
            4
        }),
        ArgumentView::Str(_) => 0x200,
        ArgumentView::Raw(_) => 0x400,
    }
}

pub open spec fn encode_arg(a: ArgumentView, be: bool) -> Seq<u8> {
    wr32(type_info_of(a), be) + (match a {
        ArgumentView::Bool(v) => seq![
            if v {
                1u8
            } else {
                0u8
            },
        ],
        ArgumentView::Signed { width, bits } => wr_uint(bits as int, width as int, be),
        ArgumentView::Unsigned { width, bits } => wr_uint(bits as int, width as int, be),
        ArgumentView::Float { width, bits } => wr_uint(bits as int, width as int, be),
        ArgumentView::Str(s) => wr16(s.len() as int, be) + s,
        ArgumentView::Raw(r) => wr16(r.len() as int, be) + r,
    })
}

pub open spec fn encode_args(args: Seq<ArgumentView>, be: bool) -> Seq<u8>
    decreases args.len(),
{
    if args.len() == 0 {
        Seq::<u8>::empty()
    } else {
        encode_arg(args[0], be) + encode_args(args.skip(1), be)
    }
}

pub open spec fn encode_payload(p: PayloadView, be: bool) -> Seq<u8> {
    match p {
        PayloadView::Verbose(args) => encode_args(args, be),
        PayloadView::NonVerbose(id, blob) => wr32(id as int, be) + blob,
    }
}

/// The flags byte a standard header writes.
pub open spec fn flags_byte_of(h: StandardHeader) -> u8 {
    ((if h.has_extended {
        1int
    } else {
        0
    }) + (if h.big_endian_payload {
        2int
    } else {
        0
    }) + (if h.ecu_id is Some {
        4int
    } else {
        0
    }) + (if h.session_id is Some {
        8int
    } else {
        0
    }) + (if h.timestamp is Some {
        16int
    } else {
        0
    })) as u8
}

pub open spec fn storage_bytes(s: StorageHeader) -> Seq<u8> {
    seq![0x44u8, 0x4cu8, 0x54u8, 0x01u8] + wr32(s.seconds as int, true) + wr32(
        s.micros as int,
        true,
    ) + wr32(s.ecu_id as int, true)
}

pub open spec fn opt_bytes(v: Option<u32>) -> Seq<u8> {
    match v {
        Option::Some(x) => wr32(x as int, true),
        Option::None => Seq::<u8>::empty(),
    }
}

pub open spec fn std_bytes(h: StandardHeader) -> Seq<u8> {
    seq![flags_byte_of(h), h.counter] + wr16(h.length as int, true) + opt_bytes(h.ecu_id)
        + opt_bytes(h.session_id) + opt_bytes(h.timestamp)
}

/// The message-info byte of an extended header.
pub open spec fn msin_of(e: ExtendedHeader) -> int {
    (if e.verbose {
        1int
    } else {
        0
    }) + 2 * e.message_type + 16 * e.subtype
}

pub open spec fn ext_bytes(e: ExtendedHeader) -> Seq<u8> {
    seq![msin_of(e) as u8, e.arg_count] + wr32(e.app_id as int, true) + wr32(
        e.context_id as int,
        true,
    )
}

pub open spec fn opt_ext_bytes(e: Option<ExtendedHeader>) -> Seq<u8> {
    match e {
        Option::Some(x) => ext_bytes(x),
        Option::None => Seq::<u8>::empty(),
    }
}

/// A message's wire form: storage prefix, standard header, optional
/// extended header, payload.
pub open spec fn encode_spec(m: MessageView) -> Seq<u8> {
    storage_bytes(m.storage) + std_bytes(m.standard) + opt_ext_bytes(m.extended) + encode_payload(
        m.payload,
        m.standard.big_endian_payload,
    )
}

/// A message whose declared sizes agree with its parts: the extended
/// header is present exactly as flagged, a verbose payload belongs to a
/// verbose extended header with the matching argument count, every
/// argument is encodable, and the declared length counts the standard
/// header, the extended header and the payload exactly.
pub open spec fn wf_message(m: MessageView) -> bool {
    &&& m.standard.has_extended <==> m.extended is Some
    &&& (match m.extended {
        Option::Some(e) => {
            &&& e.message_type < 8
            &&& e.subtype < 16
            &&& (if e.verbose {
                m.payload matches PayloadView::Verbose(args) && args.len() == e.arg_count
                    && (forall|i: int| 0 <= i < args.len() ==> wf_arg(#[trigger] args[i]))
            } else {
                m.payload is NonVerbose
            })
        },
        Option::None => m.payload is NonVerbose,
    })
    &&& m.standard.length as int == std_size_of(m.standard) + (if m.extended is Some {
        10int
    } else {
        0
    }) + encode_payload(m.payload, m.standard.big_endian_payload).len()
}

/// Size of the standard header, from its option fields.
pub open spec fn std_size_of(h: StandardHeader) -> int {
    4 + (if h.ecu_id is Some {
        4int
    } else {
        0
    }) + (if h.session_id is Some {
        4int
    } else {
        0
    }) + (if h.timestamp is Some {
        4int
    } else {
        0
    })
}


/// Law (decoder robustness): cutting a decodable message anywhere
/// before the end of its consumed span never yields a message — every
/// truncation point is reported as `Incomplete`, asking for more bytes.
pub proof fn lemma_truncation_never_succeeds(
    b: Seq<u8>,
    min: Option<LogLevel>,
    msg: Option<MessageView>,
    n: int,
    k: int,
)
    requires
        decode_spec(b, min) == ParseOutcomeView::Done(msg, n),
        0 <= k < n,
    ensures
        decode_spec(b.take(k), min) == ParseOutcomeView::Incomplete,
{
    let c = b.take(k);
    assert(b.len() >= 20);
    assert(magic_ok(b));
    assert(n == 16 + be16(b, 18));
    assert(c.len() == k);
    if k >= 4 {
        assert(c[0] == b[0] && c[1] == b[1] && c[2] == b[2] && c[3] == b[3]);
        assert(magic_ok(c));
        if k >= 20 {
            assert(c[16] == b[16] && c[18] == b[18] && c[19] == b[19]);
            assert(be16(c, 18) == be16(b, 18));
            assert(be16(c, 18) >= min_declared_length(c[16]));
            assert(c.len() < 16 + be16(c, 18));
        }
    }
}

pub proof fn lemma_rd16_at(b: Seq<u8>, i: int, v: int, be: bool)
    requires
        0 <= i,
        i + 2 <= b.len(),
        0 <= v < 0x10000,
        b.subrange(i, i + 2) == wr16(v, be),
    ensures
        rd16(b, i, be) == v,
{
    assert(b[i] == wr16(v, be)[0]);
    assert(b[i + 1] == wr16(v, be)[1]);
    assert(v / 0x100 < 0x100);
    assert((v / 0x100) * 0x100 + v % 0x100 == v);
}

pub proof fn lemma_rd32_at(b: Seq<u8>, i: int, v: int, be: bool)
    requires
        0 <= i,
        i + 4 <= b.len(),
        0 <= v < 0x100000000,
        b.subrange(i, i + 4) == wr32(v, be),
    ensures
        rd32(b, i, be) == v,
{
    assert(b[i] == wr32(v, be)[0]);
    assert(b[i + 1] == wr32(v, be)[1]);
    assert(b[i + 2] == wr32(v, be)[2]);
    assert(b[i + 3] == wr32(v, be)[3]);
    vstd::arithmetic::div_mod::lemma_div_denominator(v, 0x100, 0x100);
    vstd::arithmetic::div_mod::lemma_div_denominator(v, 0x10000, 0x100);
    assert(v == (v / 0x100) * 0x100 + v % 0x100);
    assert(v / 0x100 == (v / 0x10000) * 0x100 + (v / 0x100) % 0x100);
    assert(v / 0x10000 == (v / 0x1000000) * 0x100 + (v / 0x10000) % 0x100);
    assert(v / 0x1000000 < 0x100);
}

pub proof fn lemma_rd64_at(b: Seq<u8>, i: int, v: int, be: bool)
    requires
        0 <= i,
        i + 8 <= b.len(),
        0 <= v < 0x10000000000000000,
        b.subrange(i, i + 8) == wr64(v, be),
    ensures
        rd64(b, i, be) == v,
{
    let hi = v / 0x100000000;
    let lo = v % 0x100000000;
    assert(hi < 0x100000000);
    let w = b.subrange(i, i + 8);
    assert(b.subrange(i, i + 4) =~= w.subrange(0, 4));
    assert(b.subrange(i + 4, i + 8) =~= w.subrange(4, 8));
    if be {
        assert(w.subrange(0, 4) =~= wr32(hi, true));
        assert(w.subrange(4, 8) =~= wr32(lo, true));
        lemma_rd32_at(b, i, hi, true);
        lemma_rd32_at(b, i + 4, lo, true);
        assert(rd32(b, i, true) == be32(b, i));
        assert(rd32(b, i + 4, true) == be32(b, i + 4));
        assert(hi * 0x100000000 + lo == v);
    } else {
        assert(w.subrange(0, 4) =~= wr32(lo, false));
        assert(w.subrange(4, 8) =~= wr32(hi, false));
        lemma_rd32_at(b, i, lo, false);
        lemma_rd32_at(b, i + 4, hi, false);
        assert(rd32(b, i, false) == le32(b, i));
        assert(rd32(b, i + 4, false) == le32(b, i + 4));
        assert(hi * 0x100000000 + lo == v);
    }
}


#[verifier::spinoff_prover]
proof fn lemma_parse_arg_rt_bool(v: bool, rest: Seq<u8>, be: bool)
    ensures
        parse_arg(encode_arg(ArgumentView::Bool(v), be) + rest, be) == Option::Some(
            (ArgumentView::Bool(v), encode_arg(ArgumentView::Bool(v), be).len() as int),
        ),
{
    reveal(parse_arg);
    let a = ArgumentView::Bool(v);
    let enc = encode_arg(a, be);
    let p = enc + rest;
    assert(p.subrange(0, 4) =~= wr32(0x10, be));
    lemma_rd32_at(p, 0, 0x10, be);
    assert(enc.len() == 5);
    assert(p[4] == enc[4]);
    assert(p[4] == (if v {
        1u8
    } else {
        0u8
    }));
}

#[verifier::spinoff_prover]
#[verifier::rlimit(100)]
proof fn lemma_parse_arg_rt_signed(width: u8, bits: u64, rest: Seq<u8>, be: bool)
    requires
        wf_arg(ArgumentView::Signed { width, bits }),
    ensures
        parse_arg(encode_arg(ArgumentView::Signed { width, bits }, be) + rest, be)
            == Option::Some(
            (
                ArgumentView::Signed { width, bits },
                encode_arg(ArgumentView::Signed { width, bits }, be).len() as int,
            ),
        ),
{
    reveal(parse_arg);
    let a = ArgumentView::Signed { width, bits };
    let enc = encode_arg(a, be);
    let p = enc + rest;
    let ti = 0x20 + tyle_of(width as int);
    assert(p.subrange(0, 4) =~= wr32(ti, be));
    lemma_rd32_at(p, 0, ti, be);
    if width == 1 {
        assert(p.subrange(4, 5) =~= wr_uint(bits as int, 1, be));
        assert(p[4] == (bits as int % 0x100) as u8);
        assert(bits as int % 0x100 == bits as int);
        assert(rd_uint(p, 4, 1, be) == bits);
    } else if width == 2 {
        assert(p.subrange(4, 6) =~= wr16(bits as int, be));
        lemma_rd16_at(p, 4, bits as int, be);
    } else if width == 4 {
        assert(p.subrange(4, 8) =~= wr32(bits as int, be));
        lemma_rd32_at(p, 4, bits as int, be);
    } else {
        assert(p.subrange(4, 12) =~= wr64(bits as int, be));
        lemma_rd64_at(p, 4, bits as int, be);
    }
    assert(enc.len() == 4 + width);
}

#[verifier::spinoff_prover]
#[verifier::rlimit(100)]
proof fn lemma_parse_arg_rt_unsigned(width: u8, bits: u64, rest: Seq<u8>, be: bool)
    requires
        wf_arg(ArgumentView::Unsigned { width, bits }),
    ensures
        parse_arg(encode_arg(ArgumentView::Unsigned { width, bits }, be) + rest, be)
            == Option::Some(
            (
                ArgumentView::Unsigned { width, bits },
                encode_arg(ArgumentView::Unsigned { width, bits }, be).len() as int,
            ),
        ),
{
    reveal(parse_arg);
    let a = ArgumentView::Unsigned { width, bits };
    let enc = encode_arg(a, be);
    let p = enc + rest;
    let ti = 0x40 + tyle_of(width as int);
    assert(p.subrange(0, 4) =~= wr32(ti, be));
    lemma_rd32_at(p, 0, ti, be);
    if width == 1 {
        assert(p.subrange(4, 5) =~= wr_uint(bits as int, 1, be));
        assert(p[4] == (bits as int % 0x100) as u8);
        assert(bits as int % 0x100 == bits as int);
        assert(rd_uint(p, 4, 1, be) == bits);
    } else if width == 2 {
        assert(p.subrange(4, 6) =~= wr16(bits as int, be));
        lemma_rd16_at(p, 4, bits as int, be);
    } else if width == 4 {
        assert(p.subrange(4, 8) =~= wr32(bits as int, be));
        lemma_rd32_at(p, 4, bits as int, be);
    } else {
        assert(p.subrange(4, 12) =~= wr64(bits as int, be));
        lemma_rd64_at(p, 4, bits as int, be);
    }
    assert(enc.len() == 4 + width);
}

#[verifier::spinoff_prover]
#[verifier::rlimit(100)]
proof fn lemma_parse_arg_rt_float(width: u8, bits: u64, rest: Seq<u8>, be: bool)
    requires
        wf_arg(ArgumentView::Float { width, bits }),
    ensures
        parse_arg(encode_arg(ArgumentView::Float { width, bits }, be) + rest, be) == Option::Some(
            (
                ArgumentView::Float { width, bits },
                encode_arg(ArgumentView::Float { width, bits }, be).len() as int,
            ),
        ),
{
    reveal(parse_arg);
    let a = ArgumentView::Float { width, bits };
    let enc = encode_arg(a, be);
    let p = enc + rest;
    if width == 4 {
        assert(p.subrange(0, 4) =~= wr32(0x83, be));
        lemma_rd32_at(p, 0, 0x83, be);
        assert(p.subrange(4, 8) =~= wr32(bits as int, be));
        lemma_rd32_at(p, 4, bits as int, be);
    } else {
        assert(p.subrange(0, 4) =~= wr32(0x84, be));
        lemma_rd32_at(p, 0, 0x84, be);
        assert(p.subrange(4, 12) =~= wr64(bits as int, be));
        lemma_rd64_at(p, 4, bits as int, be);
    }
    assert(enc.len() == 4 + width);
}

#[verifier::spinoff_prover]
#[verifier::rlimit(100)]
proof fn lemma_parse_arg_rt_str(sv: Seq<u8>, rest: Seq<u8>, be: bool)
    requires
        sv.len() < 0x10000,
    ensures
        parse_arg(encode_arg(ArgumentView::Str(sv), be) + rest, be) == Option::Some(
            (ArgumentView::Str(sv), encode_arg(ArgumentView::Str(sv), be).len() as int),
        ),
{
    reveal(parse_arg);
    let a = ArgumentView::Str(sv);
    let enc = encode_arg(a, be);
    let p = enc + rest;
    assert(p.subrange(0, 4) =~= wr32(0x200, be));
    lemma_rd32_at(p, 0, 0x200, be);
    assert(p.subrange(4, 6) =~= wr16(sv.len() as int, be));
    lemma_rd16_at(p, 4, sv.len() as int, be);
    assert(p.subrange(6, 6 + sv.len() as int) =~= sv);
    assert(enc.len() == 6 + sv.len());
}

#[verifier::spinoff_prover]
#[verifier::rlimit(100)]
proof fn lemma_parse_arg_rt_raw(rv: Seq<u8>, rest: Seq<u8>, be: bool)
    requires
        rv.len() < 0x10000,
    ensures
        parse_arg(encode_arg(ArgumentView::Raw(rv), be) + rest, be) == Option::Some(
            (ArgumentView::Raw(rv), encode_arg(ArgumentView::Raw(rv), be).len() as int),
        ),
{
    reveal(parse_arg);
    let a = ArgumentView::Raw(rv);
    let enc = encode_arg(a, be);
    let p = enc + rest;
    assert(p.subrange(0, 4) =~= wr32(0x400, be));
    lemma_rd32_at(p, 0, 0x400, be);
    assert(p.subrange(4, 6) =~= wr16(rv.len() as int, be));
    lemma_rd16_at(p, 4, rv.len() as int, be);
    assert(p.subrange(6, 6 + rv.len() as int) =~= rv);
    assert(enc.len() == 6 + rv.len());
}

proof fn lemma_parse_arg_roundtrip(a: ArgumentView, rest: Seq<u8>, be: bool)
    requires
        wf_arg(a),
    ensures
        parse_arg(encode_arg(a, be) + rest, be) == Option::Some(
            (a, encode_arg(a, be).len() as int),
        ),
{
    match a {
        ArgumentView::Bool(v) => lemma_parse_arg_rt_bool(v, rest, be),
        ArgumentView::Signed { width, bits } => lemma_parse_arg_rt_signed(width, bits, rest, be),
        ArgumentView::Unsigned { width, bits } => lemma_parse_arg_rt_unsigned(
            width,
            bits,
            rest,
            be,
        ),
        ArgumentView::Float { width, bits } => lemma_parse_arg_rt_float(width, bits, rest, be),
        ArgumentView::Str(sv) => lemma_parse_arg_rt_str(sv, rest, be),
        ArgumentView::Raw(rv) => lemma_parse_arg_rt_raw(rv, rest, be),
    }
}

proof fn lemma_parse_args_roundtrip(args: Seq<ArgumentView>, be: bool)
    requires
        forall|i: int| 0 <= i < args.len() ==> wf_arg(#[trigger] args[i]),
    ensures
        parse_args(encode_args(args, be), args.len() as int, be) == Option::Some(args),
    decreases args.len(),
{
    reveal_with_fuel(parse_args, 2);
    if args.len() == 0 {
        assert(encode_args(args, be).len() == 0);
        assert(args =~= Seq::<ArgumentView>::empty());
    } else {
        let a = args[0];
        let tail = args.skip(1);
        let rest_enc = encode_args(tail, be);
        let enc = encode_arg(a, be) + rest_enc;
        assert(encode_args(args, be) == enc);
        lemma_parse_arg_roundtrip(a, rest_enc, be);
        assert(forall|i: int| 0 <= i < tail.len() ==> wf_arg(#[trigger] tail[i]));
        lemma_parse_args_roundtrip(tail, be);
        assert(enc.skip(encode_arg(a, be).len() as int) =~= rest_enc);
        assert(seq![a] + tail =~= args);
    }
}

proof fn lemma_flags_byte(h: StandardHeader)
    ensures
        flag_extended(flags_byte_of(h)) == h.has_extended,
        flag_big_endian(flags_byte_of(h)) == h.big_endian_payload,
        flag_ecu(flags_byte_of(h)) == (h.ecu_id is Some),
        flag_session(flags_byte_of(h)) == (h.session_id is Some),
        flag_timestamp(flags_byte_of(h)) == (h.timestamp is Some),
        std_header_size(flags_byte_of(h)) == std_size_of(h),
{
}

proof fn lemma_msin(e: ExtendedHeader)
    requires
        e.message_type < 8,
        e.subtype < 16,
    ensures
        0 <= msin_of(e) < 256,
        msin_of(e) % 2 == 1 <==> e.verbose,
        (msin_of(e) / 2) % 8 == e.message_type,
        msin_of(e) / 16 == e.subtype,
{
    let v: int = if e.verbose { 1 } else { 0 };
    let m = v + 2 * e.message_type + 16 * e.subtype;
    assert(m % 2 == v && (m / 2) % 8 == e.message_type && m / 16 == e.subtype) by (nonlinear_arith)
        requires
            0 <= v <= 1,
            0 <= e.message_type < 8,
            0 <= e.subtype < 16,
            m == v + 2 * e.message_type + 16 * e.subtype,
    ;
}

/// Everything the headers of a well-formed message's wire form decode
/// back to.
#[verifier::spinoff_prover]
#[verifier::rlimit(100)]
proof fn lemma_encode_header_facts(m: MessageView)
    requires
        wf_message(m),
    ensures
        ({
            let b = encode_spec(m);
            &&& b.len() == 16 + m.standard.length
            &&& magic_ok(b)
            &&& b[16] == flags_byte_of(m.standard)
            &&& be16(b, 18) == m.standard.length
            &&& min_declared_length(b[16]) <= be16(b, 18)
            &&& min_declared_length(b[16]) == std_size_of(m.standard) + (if m.extended is Some {
                10int
            } else {
                0
            })
            &&& flag_extended(b[16]) == m.standard.has_extended
            &&& flag_big_endian(b[16]) == m.standard.big_endian_payload
            &&& storage_spec(b) == m.storage
            &&& standard_spec(b) == m.standard
            &&& (m.extended is Some ==> extended_spec(b) == m.extended->0)
            &&& payload_spec(b) == encode_payload(m.payload, m.standard.big_endian_payload)
        }),
{
    let b = encode_spec(m);
    let sb = storage_bytes(m.storage);
    let hb = std_bytes(m.standard);
    let eb = opt_ext_bytes(m.extended);
    let pb = encode_payload(m.payload, m.standard.big_endian_payload);
    lemma_flags_byte(m.standard);
    let f = flags_byte_of(m.standard);
    assert(sb.len() == 16);
    assert(hb.len() == std_size_of(m.standard));
    assert(eb.len() == (if m.extended is Some { 10int } else { 0 }));
    assert(b.len() == 16 + m.standard.length);
    assert(b[16] == f);
    assert(magic_ok(b));
    assert(b.subrange(18, 20) =~= wr16(m.standard.length as int, true));
    lemma_rd16_at(b, 18, m.standard.length as int, true);
    assert(b.subrange(4, 8) =~= wr32(m.storage.seconds as int, true));
    lemma_rd32_at(b, 4, m.storage.seconds as int, true);
    assert(b.subrange(8, 12) =~= wr32(m.storage.micros as int, true));
    lemma_rd32_at(b, 8, m.storage.micros as int, true);
    assert(b.subrange(12, 16) =~= wr32(m.storage.ecu_id as int, true));
    lemma_rd32_at(b, 12, m.storage.ecu_id as int, true);
    assert(storage_spec(b) == m.storage);
    assert(b[17] == m.standard.counter);
    let e_len: int = if m.standard.ecu_id is Some { 4 } else { 0 };
    let s_len: int = if m.standard.session_id is Some { 4 } else { 0 };
    if m.standard.ecu_id is Some {
        let x = m.standard.ecu_id->0;
        assert(b.subrange(20, 24) =~= wr32(x as int, true));
        lemma_rd32_at(b, 20, x as int, true);
    }
    if m.standard.session_id is Some {
        let x = m.standard.session_id->0;
        assert(b.subrange(20 + e_len, 24 + e_len) =~= wr32(x as int, true));
        lemma_rd32_at(b, 20 + e_len, x as int, true);
    }
    if m.standard.timestamp is Some {
        let x = m.standard.timestamp->0;
        assert(b.subrange(20 + e_len + s_len, 24 + e_len + s_len) =~= wr32(x as int, true));
        lemma_rd32_at(b, 20 + e_len + s_len, x as int, true);
    }
    assert(standard_spec(b) == m.standard);
    let xo = 16 + std_size_of(m.standard);
    if m.extended is Some {
        let e = m.extended->0;
        lemma_msin(e);
        assert(b[xo] == msin_of(e) as u8);
        assert(b[xo + 1] == e.arg_count);
        assert(b.subrange(xo + 2, xo + 6) =~= wr32(e.app_id as int, true));
        lemma_rd32_at(b, xo + 2, e.app_id as int, true);
        assert(b.subrange(xo + 6, xo + 10) =~= wr32(e.context_id as int, true));
        lemma_rd32_at(b, xo + 6, e.context_id as int, true);
        assert(extended_spec(b) == e);
    }
    assert(payload_spec(b) =~= pb);
}

/// Law (decoder round trip): decoding the wire form of any well-formed
/// message reports exactly its header fields, its payload (hence its
/// argument count), and a consumed-byte count equal to the declared
/// total length plus the storage prefix.
#[verifier::spinoff_prover]
#[verifier::rlimit(100)]
pub proof fn lemma_decoder_round_trip(m: MessageView)
    requires
        wf_message(m),
    ensures
        decode_spec(encode_spec(m), Option::None) == ParseOutcomeView::Done(
            Option::Some(m),
            16 + m.standard.length as int,
        ),
{
    let b = encode_spec(m);
    let bep = m.standard.big_endian_payload;
    let pb = encode_payload(m.payload, bep);
    lemma_encode_header_facts(m);
    let f = b[16];
    match m.payload {
        PayloadView::Verbose(args) => {
            let e = m.extended->0;
            lemma_parse_args_roundtrip(args, bep);
            assert(parse_args(pb, e.arg_count as int, flag_big_endian(f)) == Option::Some(args));
            assert(decode_message_spec(b, Option::None) == ParseOutcomeView::Done(
                Option::Some(m),
                16 + m.standard.length as int,
            ));
        },
        PayloadView::NonVerbose(id, blob) => {
            assert(pb.len() >= 4);
            assert(pb.subrange(0, 4) =~= wr32(id as int, bep));
            lemma_rd32_at(pb, 0, id as int, bep);
            assert(pb.skip(4) =~= blob);
            assert(nonverbose_spec(b, m.extended) == ParseOutcomeView::Done(
                Option::Some(m),
                16 + m.standard.length as int,
            ));
        },
    }
}


} // verus!
