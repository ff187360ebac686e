use vstd::prelude::*;
use crate::codec::{decode, parse_hex_string, ParseError};
use crate::offset::{offset_of, parse_offset};

verus! {

/// A request that does not name exactly one thing to do.
#[derive(Clone, Copy, Debug, PartialEq, Eq, Structural)]
pub enum UsageError {
    /// Neither reading nor writing was asked for.
    NoMode,
    /// Both reading and writing were asked for.
    BothModes,
    /// Reading was asked for without a byte count.
    MissingSize,
}

/// Why a request was turned down before the file was touched.
#[derive(Clone, Copy, Debug, PartialEq, Eq, Structural)]
pub enum ToolError {
    Usage(UsageError),
    Parse(ParseError),
}

/// One file operation, ready to run.
#[derive(Debug)]
pub enum Command {
    /// Read up to `size` bytes from `offset` and dump them.
    Read { offset: u64, size: usize },
    /// Write `bytes` at `offset`.
    Write { offset: u64, bytes: Vec<u8> },
}

/// The error, if any, that a request is turned down with: first the choice of
/// mode, then the offset, then what the mode needs.
pub open spec fn request_error(
    read: bool,
    write: Option<&str>,
    offset: &str,
    size: Option<usize>,
) -> Option<ToolError> {
    if read && write is Some {
        Some(ToolError::Usage(UsageError::BothModes))
    } else if !read && write is None {
        Some(ToolError::Usage(UsageError::NoMode))
    } else if offset_of(offset@) is Err {
        Some(ToolError::Parse(ParseError::InvalidOffset))
    } else if read {
        if size is None {
            Some(ToolError::Usage(UsageError::MissingSize))
        } else {
            None
        }
    } else {
        match decode(write->0@) {
            Err(e) => Some(ToolError::Parse(e)),
            Ok(_) => None,
        }
    }
}

/// Turns the request given on the command line (a read flag, a hex payload to
/// write, an offset token and a byte count) into the one operation it asks for.
pub fn plan_command(read: bool, write: Option<&str>, offset: &str, size: Option<usize>) -> (r:
    Result<Command, ToolError>)
    ensures
        read == (write is Some) ==> r matches Err(ToolError::Usage(_)),
        match r {
            Ok(Command::Read { offset: o, size: n }) => {
                &&& request_error(read, write, offset, size) is None
                &&& read
                &&& offset_of(offset@) == Ok::<u64, ParseError>(o)
                &&& size == Some(n)
            },
            Ok(Command::Write { offset: o, bytes }) => {
                &&& request_error(read, write, offset, size) is None
                &&& !read
                &&& offset_of(offset@) == Ok::<u64, ParseError>(o)
                &&& decode(write->0@) == Ok::<Seq<u8>, ParseError>(bytes@)
            },
            Err(e) => request_error(read, write, offset, size) == Some(e),
        },
{
    if read && write.is_some() {
        return Err(ToolError::Usage(UsageError::BothModes));
    }
    let payload = match write {
        Some(h) => h,
        None => {
            if !read {
                return Err(ToolError::Usage(UsageError::NoMode));
            }
            ""
        },
    };
    let off = match parse_offset(offset) {
        Ok(o) => o,
        Err(e) => {
            return Err(ToolError::Parse(e));
        },
    };
    if read {
        match size {
            Some(n) => Ok(Command::Read { offset: off, size: n }),
            None => Err(ToolError::Usage(UsageError::MissingSize)),
        }
    } else {
        match parse_hex_string(payload) {
            Ok(bytes) => Ok(Command::Write { offset: off, bytes }),
            Err(e) => Err(ToolError::Parse(e)),
        }
    }
}

} // verus!
