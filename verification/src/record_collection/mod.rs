//! The events that a child reports, and their fixed-size encoding on the pipe.

use crate::util::{bytes_to_trimmed_string, trimmed};
use vstd::prelude::*;
use vstd::utf8::{decode_utf8, valid_utf8};

pub mod collection;
pub mod model;
pub mod name_map;
pub mod shared;

verus! {

/// Bytes reserved for a log message.
pub const MESSAGE_BUFFER: usize = 64;

/// Bytes reserved for the name of a test function.
pub const FUNCTION_MAX_CHAR_SIZE: usize = 32;

/// Bytes reserved for the name of a program.
pub const PROGRAM_NAME_MAX_CHAR_SIZE: usize = 64;

/// Bytes of one frame: the largest payload, a log record of 164 bytes, and the
/// 32-bit tag that follows it.
pub const FRAME_SIZE: usize = 168;

/// Why the record store turned an event down.
#[derive(Clone, Copy, Debug, PartialEq, Eq, Structural)]
pub enum RecordErr {
    /// The event names a program that was never registered.
    ProgramNotExist,
    /// The event names a test that its program never registered.
    TestNotExist,
    /// The program or the test is registered already.
    AlreadyExists,
    /// A name in the event is not well-formed UTF-8.
    Utf8ConvertionErr,
}

/// The outcome of a test.
#[derive(Clone, Copy, Debug, PartialEq, Eq, Structural)]
pub enum StatusType {
    Success,
    Fail,
}

/// The severity of a log line.
#[derive(Clone, Copy, Debug, PartialEq, Eq, Structural)]
pub enum LogType {
    Debug,
    Info,
    Warning,
}

/// A test reports its outcome.
#[derive(Clone, Copy, Debug)]
pub struct Status {
    pub program_name: [u8; PROGRAM_NAME_MAX_CHAR_SIZE],
    pub function_name: [u8; FUNCTION_MAX_CHAR_SIZE],
    pub t: StatusType,
}

/// A program announces one of its tests.
#[derive(Clone, Copy, Debug)]
pub struct Register {
    pub program_name: [u8; PROGRAM_NAME_MAX_CHAR_SIZE],
    pub function_name: [u8; FUNCTION_MAX_CHAR_SIZE],
}

/// A test emits a log line.
#[derive(Clone, Copy, Debug)]
pub struct Log {
    pub program_name: [u8; PROGRAM_NAME_MAX_CHAR_SIZE],
    pub function_name: [u8; FUNCTION_MAX_CHAR_SIZE],
    pub msg: [u8; MESSAGE_BUFFER],
    pub t: LogType,
}

/// The kind of event that a frame carries, as its tag word numbers them from zero.
#[derive(Clone, Copy, Debug, PartialEq, Eq, Structural)]
pub enum ProgramInfoType {
    Register,
    Status,
    Log,
}

/// The payload of a frame.
#[derive(Clone, Copy, Debug)]
pub enum ProgramData {
    Log(Log),
    Reg(Register),
    Stat(Status),
}

/// One decoded frame.
#[derive(Clone, Copy, Debug)]
pub struct ProcessInfo {
    pub data: ProgramData,
}

/// An event as the record store sees it: the name fields as raw, NUL-padded bytes.
pub enum Event {
    Register { program: Seq<u8>, function: Seq<u8> },
    Status { program: Seq<u8>, function: Seq<u8>, status: StatusType },
    Log { program: Seq<u8>, function: Seq<u8>, msg: Seq<u8>, kind: LogType },
}

impl View for Register {
    type V = Event;

    /// The event that this record stands for.
    open spec fn view(&self) -> Event {
        Event::Register { program: self.program_name@, function: self.function_name@ }
    }
}

impl View for Status {
    type V = Event;

    /// The event that this record stands for.
    open spec fn view(&self) -> Event {
        Event::Status {
            program: self.program_name@,
            function: self.function_name@,
            status: self.t,
        }
    }
}

impl View for Log {
    type V = Event;

    /// The event that this record stands for.
    open spec fn view(&self) -> Event {
        Event::Log {
            program: self.program_name@,
            function: self.function_name@,
            msg: self.msg@,
            kind: self.t,
        }
    }
}

impl View for ProcessInfo {
    type V = Event;

    /// The event that this frame carries.
    open spec fn view(&self) -> Event {
        match self.data {
            ProgramData::Reg(reg) => reg@,
            ProgramData::Stat(stat) => stat@,
            ProgramData::Log(log) => log@,
        }
    }
}

impl ProcessInfo {
    /// The kind of event that this frame carries.
    pub fn info_type(&self) -> (r: ProgramInfoType)
        ensures
            r == match self@ {
                Event::Register { .. } => ProgramInfoType::Register,
                Event::Status { .. } => ProgramInfoType::Status,
                Event::Log { .. } => ProgramInfoType::Log,
            },
    {
        match self.data {
            ProgramData::Reg(_) => ProgramInfoType::Register,
            ProgramData::Stat(_) => ProgramInfoType::Status,
            ProgramData::Log(_) => ProgramInfoType::Log,
        }
    }
}

/// The name that a NUL-padded field holds: the bytes before its first NUL,
/// read as UTF-8. A field whose bytes are not well-formed UTF-8 holds no name.
pub open spec fn spec_name(bytes: Seq<u8>) -> Option<Seq<char>> {
    if valid_utf8(trimmed(bytes)) {
        Some(decode_utf8(trimmed(bytes)))
    } else {
        None
    }
}

/// A log line as the record store keeps it.
#[derive(Clone, Debug, PartialEq, Eq)]
pub enum LogTypeMessage {
    Debug(String),
    Info(String),
    Warning(String),
}

/// What a stored log line says: its severity and its text.
pub struct LogLine {
    pub kind: LogType,
    pub text: Seq<char>,
}

impl View for LogTypeMessage {
    type V = LogLine;

    /// What the line says.
    open spec fn view(&self) -> LogLine {
        match self {
            LogTypeMessage::Debug(text) => LogLine { kind: LogType::Debug, text: text@ },
            LogTypeMessage::Info(text) => LogLine { kind: LogType::Info, text: text@ },
            LogTypeMessage::Warning(text) => LogLine { kind: LogType::Warning, text: text@ },
        }
    }
}

/// The line that a log event leaves in the store, where its message is
/// well-formed UTF-8 up to the first NUL: that text, with the severity.
pub open spec fn spec_log_line(msg: Seq<u8>, kind: LogType) -> LogLine
    recommends
        spec_name(msg) is Some,
{
    LogLine { kind, text: spec_name(msg)->0 }
}

impl LogTypeMessage {
    /// Takes the line out of a log event. An event whose message is not
    /// well-formed UTF-8 up to its first NUL has no line.
    pub fn from_log(value: Log) -> (r: Result<LogTypeMessage, RecordErr>)
        ensures
            match spec_name(value.msg@) {
                Some(_) => r matches Ok(line) && line@ == spec_log_line(value.msg@, value.t),
                None => r == Err::<LogTypeMessage, RecordErr>(RecordErr::Utf8ConvertionErr),
            },
    {
        let text = match bytes_to_trimmed_string(value.msg.as_slice()) {
            Ok(text) => text,
            Err(_) => {
                return Err(RecordErr::Utf8ConvertionErr);
            },
        };
        Ok(
            match value.t {
                LogType::Debug => LogTypeMessage::Debug(text),
                LogType::Info => LogTypeMessage::Info(text),
                LogType::Warning => LogTypeMessage::Warning(text),
            },
        )
    }
}

/// The byte order of the 32-bit words of a frame.
#[derive(Clone, Copy, Debug, PartialEq, Eq, Structural)]
pub enum ByteOrder {
    Little,
    Big,
}

/// The 32-bit word that the four bytes of `frame` from `at` on spell in `order`.
pub open spec fn spec_word(frame: Seq<u8>, at: int, order: ByteOrder) -> int {
    match order {
        ByteOrder::Little => frame[at] + 0x100 * frame[at + 1] + 0x1_0000 * frame[at + 2]
            + 0x100_0000 * frame[at + 3],
        ByteOrder::Big => frame[at + 3] + 0x100 * frame[at + 2] + 0x1_0000 * frame[at + 1]
            + 0x100_0000 * frame[at],
    }
}

/// The status that a status word stands for: 0 is success, 1 is failure.
pub open spec fn spec_status_type(word: int) -> Option<StatusType> {
    if word == 0 {
        Some(StatusType::Success)
    } else if word == 1 {
        Some(StatusType::Fail)
    } else {
        None
    }
}

/// The severity that a log word stands for: 0 is debug, 1 is info, 2 is warning.
pub open spec fn spec_log_type(word: int) -> Option<LogType> {
    if word == 0 {
        Some(LogType::Debug)
    } else if word == 1 {
        Some(LogType::Info)
    } else if word == 2 {
        Some(LogType::Warning)
    } else {
        None
    }
}

/// The event that a frame of `FRAME_SIZE` bytes encodes, if any.
///
/// The program name fills bytes 0 to 63 and the function name bytes 64 to 95.
/// A status record has its status word at byte 96; a log record has its
/// message in bytes 96 to 159 and its severity word at byte 160. The tag word
/// at byte 164 tells the three apart: 0 registers, 1 is a status, 2 is a log.
/// A frame with any other tag, status word or severity word encodes nothing.
pub open spec fn spec_decode(frame: Seq<u8>, order: ByteOrder) -> Option<Event> {
    let program = frame.subrange(0, 64);
    let function = frame.subrange(64, 96);
    let tag = spec_word(frame, 164, order);
    if tag == 0 {
        Some(Event::Register { program, function })
    } else if tag == 1 {
        match spec_status_type(spec_word(frame, 96, order)) {
            Some(status) => Some(Event::Status { program, function, status }),
            None => None,
        }
    } else if tag == 2 {
        match spec_log_type(spec_word(frame, 160, order)) {
            Some(kind) => Some(
                Event::Log { program, function, msg: frame.subrange(96, 160), kind },
            ),
            None => None,
        }
    } else {
        None
    }
}

/// Reads the 32-bit word at `at`.
fn read_word(frame: &[u8; FRAME_SIZE], at: usize, order: ByteOrder) -> (r: u32)
    requires
        at + 4 <= FRAME_SIZE,
    ensures
        r == spec_word(frame@, at as int, order),
{
    let b0: u32 = frame[at] as u32;
    let b1: u32 = frame[at + 1] as u32;
    let b2: u32 = frame[at + 2] as u32;
    let b3: u32 = frame[at + 3] as u32;
    match order {
        ByteOrder::Little => b0 + 0x100 * b1 + 0x1_0000 * b2 + 0x100_0000 * b3,
        ByteOrder::Big => b3 + 0x100 * b2 + 0x1_0000 * b1 + 0x100_0000 * b0,
    }
}

/// Copies the `N` bytes at `at`.
fn read_field<const N: usize>(frame: &[u8; FRAME_SIZE], at: usize) -> (r: [u8; N])
    requires
        at + N <= FRAME_SIZE,
    ensures
        r@ == frame@.subrange(at as int, at + N),
{
    let mut out = [0u8; N];
    let mut i: usize = 0;
    while i < N
        invariant
            i <= N,
            at + N <= FRAME_SIZE,
            forall|k: int| 0 <= k < i ==> out@[k] == frame@[at + k],
        decreases N - i,
    {
        out[i] = frame[at + i];
        i += 1;
    }
    out
}

/// Decodes one frame whose words are in the given byte order.
///
/// Returns `None` exactly for the frames that encode no event.
pub fn decode_frame(frame: &[u8; FRAME_SIZE], order: ByteOrder) -> (r: Option<ProcessInfo>)
    ensures
        match r {
            Some(info) => spec_decode(frame@, order) == Some(info@),
            None => spec_decode(frame@, order) is None,
        },
{
    let program_name: [u8; PROGRAM_NAME_MAX_CHAR_SIZE] = read_field(frame, 0);
    let function_name: [u8; FUNCTION_MAX_CHAR_SIZE] = read_field(frame, 64);
    let tag = read_word(frame, 164, order);
    if tag == 0 {
        Some(ProcessInfo { data: ProgramData::Reg(Register { program_name, function_name }) })
    } else if tag == 1 {
        let word = read_word(frame, 96, order);
        let t = if word == 0 {
            StatusType::Success
        } else if word == 1 {
            StatusType::Fail
        } else {
            return None;
        };
        Some(ProcessInfo { data: ProgramData::Stat(Status { program_name, function_name, t }) })
    } else if tag == 2 {
        let word = read_word(frame, 160, order);
        let t = if word == 0 {
            LogType::Debug
        } else if word == 1 {
            LogType::Info
        } else if word == 2 {
            LogType::Warning
        } else {
            return None;
        };
        let msg: [u8; MESSAGE_BUFFER] = read_field(frame, 96);
        Some(ProcessInfo { data: ProgramData::Log(Log { program_name, function_name, msg, t }) })
    } else {
        None
    }
}

/// `u32::from_ne_bytes` reads four bytes in the byte order of the machine, so
/// its result is what they spell in one of the two orders.
#[verifier::external_body]
fn native_word(bytes: [u8; 4]) -> (r: u32)
    ensures
        r == spec_word(bytes@, 0, ByteOrder::Little) || r == spec_word(
            bytes@,
            0,
            ByteOrder::Big,
        ),
{
    u32::from_ne_bytes(bytes)
}

/// The bytes 1, 0, 0, 0, which spell a different word in each byte order.
pub open spec fn probe() -> Seq<u8> {
    seq![1u8, 0u8, 0u8, 0u8]
}

/// The byte order that is taken from the word that the bytes 1, 0, 0, 0 were
/// read as: little where the word is 1, big for any other word.
pub open spec fn spec_order_of(word: u32) -> ByteOrder {
    if word == 1 {
        ByteOrder::Little
    } else {
        ByteOrder::Big
    }
}

/// Tells the byte order of a machine from the word that it read the bytes
/// 1, 0, 0, 0 as: the order in which those bytes spell that word.
pub fn order_of(word: u32) -> (r: ByteOrder)
    ensures
        r == spec_order_of(word),
        forall|order: ByteOrder| spec_word(probe(), 0, order) == word ==> r == order,
{
    if word == 1 {
        ByteOrder::Little
    } else {
        ByteOrder::Big
    }
}

/// The byte order of this machine, found by reading the bytes 1, 0, 0, 0 as a
/// native word: they spell 1 only on a little-endian machine.
pub(crate) fn native_order() -> ByteOrder {
    order_of(native_word([1, 0, 0, 0]))
}

/// Decodes one frame as a child on this machine wrote it, its words in native
/// byte order.
pub fn bin_convert(refe: &[u8; FRAME_SIZE]) -> (r: Option<ProcessInfo>)
    ensures
        exists|order: ByteOrder|
            match r {
                Some(info) => #[trigger] spec_decode(refe@, order) == Some(info@),
                None => spec_decode(refe@, order) is None,
            },
{
    decode_frame(refe, native_order())
}

} // verus!
