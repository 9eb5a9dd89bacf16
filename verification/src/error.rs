//! The errors of the library.

use crate::text::{cat2, cat3, cat4, cat6, cat7, debug, debug_text, decimal, to_decimal};
use vstd::prelude::*;
use vstd::string::*;

verus! {

/// Why an operation was refused.
#[derive(Debug)]
pub enum InferlabError {
    /// A definition, a binding or an integration's answer is not acceptable.
    InvalidConfig { message: String },
    /// An invocation override is not acceptable.
    InvalidOverride { value: String, message: String },
    /// A machine has too few free devices.
    InsufficientDevices { machine: String, required: u32, available: usize },
    /// A file that rendering needs cannot be read.
    RenderInputRead { integration: String, source_path: String, path: String, message: String },
    /// A file that rendering needs is not UTF-8.
    RenderInputUtf8 { integration: String, source_path: String, path: String },
    /// A profiling request cannot be served.
    Profiling { message: String },
    /// A step in the life of a server failed.
    ServerLifecycle { message: String },
    /// A server is in use by another command.
    ServerBusy { id: String },
    /// A journal entry cannot be written or read.
    Scratchpad { message: String },
    /// An image cannot be used where it was selected.
    ImageSelection { message: String },
    /// A record cannot be read or written.
    RecordIo { path: String, message: String },
}

impl InferlabError {
    /// The text of the error.
    pub open spec fn text(self) -> Seq<char> {
        match self {
            InferlabError::InvalidConfig { message } => message@,
            InferlabError::InvalidOverride { value, message } => "invalid override "@ + debug_text(
                value@,
            ) + ": "@ + message@,
            InferlabError::InsufficientDevices { machine, required, available } => "machine "@
                + debug_text(machine@) + " has "@ + decimal(available as nat)
                + " free devices, which is fewer than "@ + decimal(required as nat),
            InferlabError::RenderInputRead { integration, source_path, path, message } => "integration "@
                + debug_text(integration@) + " render input "@ + debug_text(source_path@) + " at "@
                + debug_text(path@) + (" cannot be read: "@ + message@),
            InferlabError::RenderInputUtf8 { integration, source_path, path } => "integration "@
                + debug_text(integration@) + " render input "@ + debug_text(source_path@) + " at "@
                + debug_text(path@) + " is not valid UTF-8"@,
            InferlabError::Profiling { message } => message@,
            InferlabError::ServerLifecycle { message } => message@,
            InferlabError::ServerBusy { id } => "server "@ + debug_text(id@) + " is busy"@,
            InferlabError::Scratchpad { message } => message@,
            InferlabError::ImageSelection { message } => message@,
            InferlabError::RecordIo { path, message } => path@ + ": "@ + message@,
        }
    }

    /// The text of the error.
    pub fn message(&self) -> (r: String)
        ensures
            r@ == self.text(),
    {
        match self {
            InferlabError::InvalidConfig { message } => message.clone(),
            InferlabError::InvalidOverride { value, message } => cat4(
                "invalid override ",
                debug(value.as_str()).as_str(),
                ": ",
                message.as_str(),
            ),
            InferlabError::InsufficientDevices { machine, required, available } => cat6(
                "machine ",
                debug(machine.as_str()).as_str(),
                " has ",
                to_decimal(*available as u64).as_str(),
                " free devices, which is fewer than ",
                to_decimal(*required as u64).as_str(),
            ),
            InferlabError::RenderInputRead { integration, source_path, path, message } => cat7(
                "integration ",
                debug(integration.as_str()).as_str(),
                " render input ",
                debug(source_path.as_str()).as_str(),
                " at ",
                debug(path.as_str()).as_str(),
                cat2(" cannot be read: ", message.as_str()).as_str(),
            ),
            InferlabError::RenderInputUtf8 { integration, source_path, path } => cat7(
                "integration ",
                debug(integration.as_str()).as_str(),
                " render input ",
                debug(source_path.as_str()).as_str(),
                " at ",
                debug(path.as_str()).as_str(),
                " is not valid UTF-8",
            ),
            InferlabError::Profiling { message } => message.clone(),
            InferlabError::ServerLifecycle { message } => message.clone(),
            InferlabError::ServerBusy { id } => cat3(
                "server ",
                debug(id.as_str()).as_str(),
                " is busy",
            ),
            InferlabError::Scratchpad { message } => message.clone(),
            InferlabError::ImageSelection { message } => message.clone(),
            InferlabError::RecordIo { path, message } => cat3(
                path.as_str(),
                ": ",
                message.as_str(),
            ),
        }
    }
}

/// Whether the result is the refusal of a configuration with the given text.
pub open spec fn refuses<T>(r: Result<T, InferlabError>, text: Seq<char>) -> bool {
    r matches Err(InferlabError::InvalidConfig { message }) && message@ == text
}

/// Whether a check answers as it should: it passes where there is no fault, and
/// refuses with the text of the fault where there is one.
pub open spec fn answers(r: Result<(), InferlabError>, fault: Option<Seq<char>>) -> bool {
    match fault {
        None => r is Ok,
        Some(text) => refuses(r, text),
    }
}

/// The refusal of a configuration.
pub fn invalid_config<T>(message: String) -> (r: Result<T, InferlabError>)
    ensures
        refuses(r, message@),
{
    Err(InferlabError::InvalidConfig { message })
}

/// The first of two faults.
pub open spec fn or_fault(first: Option<Seq<char>>, second: Option<Seq<char>>) -> Option<Seq<char>> {
    match first {
        Some(text) => Some(text),
        None => second,
    }
}

} // verus!
