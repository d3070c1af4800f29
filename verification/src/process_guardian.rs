//! What a process guardian and the supervisor tell each other, and how a guardian exits.

use crate::paths::{directory_of, file_name, name_of_file, parent};
use crate::text::same_text;
use vstd::prelude::*;

verus! {

/// The descriptor of the control channel in a guardian.
pub const CONTROL_FD: i32 = 3;

/// The least descriptor that a guardian image may have.
pub const EXECUTABLE_FD_MINIMUM: i32 = 10;

/// The first byte of the message that a command has started.
pub const STARTED_MESSAGE: u8 = 1;

/// The first byte of the message that a command could not be started.
pub const START_FAILED_MESSAGE: u8 = 2;

/// How many bytes of the reason are told.
pub const MAX_START_ERROR_BYTES: usize = 16384;

/// What the first byte of a message says.
#[derive(Debug, Clone, Copy, PartialEq, Eq, Structural)]
pub enum StartMessage {
    /// The command has started; its process group follows.
    Started,
    /// The command could not be started; the reason follows.
    Failed,
    /// Nothing known.
    Unknown(u8),
}

/// What the first byte of a message says.
pub open spec fn message_of(byte: u8) -> StartMessage {
    if byte == STARTED_MESSAGE {
        StartMessage::Started
    } else if byte == START_FAILED_MESSAGE {
        StartMessage::Failed
    } else {
        StartMessage::Unknown(byte)
    }
}

/// What the first byte of a message says.
pub fn read_start_message(byte: u8) -> (message: StartMessage)
    ensures
        message == message_of(byte),
{
    if byte == STARTED_MESSAGE {
        StartMessage::Started
    } else if byte == START_FAILED_MESSAGE {
        StartMessage::Failed
    } else {
        StartMessage::Unknown(byte)
    }
}

/// The process group that a message names, where it names one.
pub open spec fn group_of(raw: u32) -> Option<i32> {
    if 0 < raw <= i32::MAX {
        Some(raw as i32)
    } else {
        None
    }
}

/// The process group that a message names, where it names one.
pub fn read_process_group(raw: u32) -> (group: Option<i32>)
    ensures
        group == group_of(raw),
{
    if raw > 0 && raw <= 0x7fff_ffff {
        Some(raw as i32)
    } else {
        None
    }
}

/// How many bytes of a reason are told.
pub open spec fn told(length: nat) -> nat {
    if length <= MAX_START_ERROR_BYTES {
        length
    } else {
        MAX_START_ERROR_BYTES as nat
    }
}

/// The part of a reason that is told, and its length.
pub fn start_error_payload(reason: &[u8]) -> (payload: (u32, Vec<u8>))
    ensures
        payload.0 == payload.1@.len(),
        payload.1@ == reason@.take(told(reason@.len()) as int),
{
    let n: usize = if reason.len() <= MAX_START_ERROR_BYTES {
        reason.len()
    } else {
        MAX_START_ERROR_BYTES
    };
    let mut bytes: Vec<u8> = Vec::new();
    let mut i: usize = 0;
    while i < n
        invariant
            i <= n == told(reason@.len()),
            n <= reason@.len(),
            bytes@ == reason@.take(i as int),
        decreases n - i,
    {
        bytes.push(reason[i]);
        assert(reason@.take(i + 1) =~= reason@.take(i as int).push(reason@[i as int]));
        i = i + 1;
    }
    (n as u32, bytes)
}

/// The length of a reason that a message announces; nothing where it is too long.
pub open spec fn length_of(announced: u32) -> Option<usize> {
    if announced <= MAX_START_ERROR_BYTES {
        Some(announced as usize)
    } else {
        None
    }
}

/// The length of a reason that a message announces; nothing where it is too long.
pub fn read_error_length(length: u32) -> (result: Option<usize>)
    ensures
        result == length_of(length),
{
    if (length as usize) <= MAX_START_ERROR_BYTES {
        Some(length as usize)
    } else {
        None
    }
}

/// The supervisor takes what a guardian announces: a started command with the identifier of its
/// process, which is one that a process can have, and a failure with the part of its reason that
/// is told, whatever the reason.
pub proof fn law_announcements_are_taken(process_id: u32, reason: Seq<u8>)
    requires
        0 < process_id <= i32::MAX,
    ensures
        message_of(STARTED_MESSAGE) == StartMessage::Started,
        group_of(process_id) == Some(process_id as i32),
        message_of(START_FAILED_MESSAGE) == StartMessage::Failed,
        told(reason.len()) <= u32::MAX,
        length_of(told(reason.len()) as u32) == Some(told(reason.len()) as usize),
        reason.take(told(reason.len()) as int).len() == told(reason.len()),
{
}

/// The exit code of a guardian: that of its command, or what stands for the signal that ended
/// it, between zero and two hundred and fifty-five.
pub open spec fn guardian_exit_code(code: Option<i32>, signal: Option<i32>) -> int {
    let raw = match code {
        Some(code) => code as int,
        None => match signal {
            Some(signal) => 128 + signal,
            None => 1int,
        },
    };
    if raw < 0 {
        0
    } else if raw > 255 {
        255
    } else {
        raw
    }
}

/// The exit code of a guardian.
pub fn exit_code(code: Option<i32>, signal: Option<i32>) -> (result: i32)
    ensures
        result == guardian_exit_code(code, signal),
        0 <= result <= 255,
{
    let raw: i32 = match code {
        Some(code) => code,
        None => match signal {
            Some(signal) => if signal > 127 {
                255
            } else {
                128 + signal
            },
            None => 1,
        },
    };
    if raw < 0 {
        0
    } else if raw > 255 {
        255
    } else {
        raw
    }
}

/// Why the directory of the guardian is not known.
#[derive(Debug, Clone, Copy, PartialEq, Eq, Structural)]
pub enum DirectoryError {
    /// The executable has no directory.
    NoParent,
    /// The directory of test executables has no directory.
    NoProfile,
}

impl DirectoryError {
    /// The text of the error.
    pub fn message(&self) -> (text: String)
        ensures
            text@ == match *self {
                DirectoryError::NoParent => "devloop executable has no parent directory"@,
                DirectoryError::NoProfile => "Cargo test executable has no target profile directory"@,
            },
    {
        match self {
            DirectoryError::NoParent => "devloop executable has no parent directory".to_owned(),
            DirectoryError::NoProfile =>
                "Cargo test executable has no target profile directory".to_owned(),
        }
    }
}

/// The directory in which the guardian stands: that of the executable, or for a test executable
/// the one above.
pub fn executable_directory(executable: &str) -> (result: Result<String, DirectoryError>)
    ensures
        match directory_of(executable@) {
            None => result == Err::<String, DirectoryError>(DirectoryError::NoParent),
            Some(directory) => if name_of_file(directory) == Some("deps"@) {
                match directory_of(directory) {
                    None => result == Err::<String, DirectoryError>(DirectoryError::NoProfile),
                    Some(profile) => result matches Ok(path) && path@ == profile,
                }
            } else {
                result matches Ok(path) && path@ == directory
            },
        },
{
    let directory = match parent(executable) {
        Some(directory) => directory,
        None => {
            return Err(DirectoryError::NoParent);
        },
    };
    let in_deps = match file_name(directory.as_str()) {
        Some(name) => same_text(name.as_str(), "deps"),
        None => false,
    };
    if in_deps {
        return match parent(directory.as_str()) {
            Some(profile) => Ok(profile),
            None => Err(DirectoryError::NoProfile),
        };
    }
    Ok(directory)
}

/// What a read on the control channel gave.
#[derive(Debug, Clone, Copy, PartialEq, Eq, Structural)]
pub enum ControlRead {
    /// The channel is at its end.
    End,
    /// There was data.
    Data,
    /// The read was interrupted.
    Interrupted,
    /// The read failed.
    Failed,
}

/// What a guardian does after a read on the control channel.
#[derive(Debug, Clone, Copy, PartialEq, Eq, Structural)]
pub enum ControlStep {
    /// Read again.
    ReadAgain,
    /// Kill the group of the command; the second part says whether the read was as expected.
    KillGroup { expected: bool },
}

/// What a guardian does after a read on the control channel: whatever it reads but an
/// interruption, it kills the group of the command.
pub fn after_control_read(read: ControlRead) -> (step: ControlStep)
    ensures
        step == match read {
            ControlRead::Interrupted => ControlStep::ReadAgain,
            ControlRead::Data => ControlStep::KillGroup { expected: false },
            ControlRead::End => ControlStep::KillGroup { expected: true },
            ControlRead::Failed => ControlStep::KillGroup { expected: true },
        },
{
    match read {
        ControlRead::Interrupted => ControlStep::ReadAgain,
        ControlRead::Data => ControlStep::KillGroup { expected: false },
        ControlRead::End => ControlStep::KillGroup { expected: true },
        ControlRead::Failed => ControlStep::KillGroup { expected: true },
    }
}

/// A guardian exits as its command does: with its code where that is one that an exit can have, and
/// with what stands for the signal that ended it otherwise.
pub proof fn law_guardians_exit_as_their_command(code: i32, signal: i32)
    ensures
        0 <= code <= 255 ==> guardian_exit_code(Some(code), None) == code && guardian_exit_code(
            Some(code),
            Some(signal),
        ) == code,
        0 <= signal <= 127 ==> guardian_exit_code(None, Some(signal)) == 128 + signal,
        guardian_exit_code(None, None) == 1,
        code < 0 ==> guardian_exit_code(Some(code), None) == 0,
        code > 255 ==> guardian_exit_code(Some(code), None) == 255,
{
}

/// A message names a process group where it holds a positive number that fits, and begins with one
/// for a start and with two for a failed one.
pub proof fn law_messages_say_what_they_hold(raw: u32, byte: u8)
    ensures
        group_of(0) is None,
        0 < raw && raw < 0x8000_0000 ==> (group_of(raw) matches Some(group) && group == raw),
        raw >= 0x8000_0000 ==> group_of(raw) is None,
        message_of(1) is Started,
        message_of(2) is Failed,
        byte != 1 && byte != 2 ==> message_of(byte) == StartMessage::Unknown(byte),
{
}

} // verus!
