//! The user/kernel system-call interface: error codes, file-system records
//! and network records shared by both sides.

pub mod fs;
pub mod network;
pub mod syscall;

use vstd::prelude::*;

verus! {

use vstd::string::StringSliceAdditionalSpecFns;

/// Errors (and the success code) a system call reports in register `x7`.
#[derive(Clone, Copy, Debug, PartialEq, Eq)]
pub enum OsError {
    Unknown,
    Success,
    Utf8Error,
    FmtError,
    InvalidPid,
    MaxPidExceeded,
    NoEntry,
    NoMemory,
    NoVmSpace,
    NoAccess,
    BadAddress,
    FileExists,
    InvalidArgument,
    NotAFile,
    NotADir,
    IoError,
    IoErrorEof,
    IoErrorInvalidData,
    IoErrorInvalidInput,
    IoErrorTimedOut,
    InvalidSocket,
    IllegalSocketOperation,
}

/// The register encoding of each error.
pub open spec fn os_error_code(e: OsError) -> u64 {
    match e {
        OsError::Unknown => 0,
        OsError::Success => 1,
        OsError::Utf8Error => 2,
        OsError::FmtError => 3,
        OsError::InvalidPid => 4,
        OsError::MaxPidExceeded => 5,
        OsError::NoEntry => 10,
        OsError::NoMemory => 20,
        OsError::NoVmSpace => 30,
        OsError::NoAccess => 40,
        OsError::BadAddress => 50,
        OsError::FileExists => 60,
        OsError::InvalidArgument => 70,
        OsError::NotAFile => 80,
        OsError::NotADir => 90,
        OsError::IoError => 101,
        OsError::IoErrorEof => 102,
        OsError::IoErrorInvalidData => 103,
        OsError::IoErrorInvalidInput => 104,
        OsError::IoErrorTimedOut => 105,
        OsError::InvalidSocket => 200,
        OsError::IllegalSocketOperation => 201,
    }
}

/// The error a register value decodes to. Codes that are not listed, and
/// the time-out code, decode to `Unknown`.
pub open spec fn os_error_from_code(e: u64) -> OsError {
    if e == 1 {
        OsError::Success
    } else if e == 2 {
        OsError::Utf8Error
    } else if e == 3 {
        OsError::FmtError
    } else if e == 4 {
        OsError::InvalidPid
    } else if e == 5 {
        OsError::MaxPidExceeded
    } else if e == 10 {
        OsError::NoEntry
    } else if e == 20 {
        OsError::NoMemory
    } else if e == 30 {
        OsError::NoVmSpace
    } else if e == 40 {
        OsError::NoAccess
    } else if e == 50 {
        OsError::BadAddress
    } else if e == 60 {
        OsError::FileExists
    } else if e == 70 {
        OsError::InvalidArgument
    } else if e == 80 {
        OsError::NotAFile
    } else if e == 90 {
        OsError::NotADir
    } else if e == 101 {
        OsError::IoError
    } else if e == 102 {
        OsError::IoErrorEof
    } else if e == 103 {
        OsError::IoErrorInvalidData
    } else if e == 104 {
        OsError::IoErrorInvalidInput
    } else if e == 200 {
        OsError::InvalidSocket
    } else if e == 201 {
        OsError::IllegalSocketOperation
    } else {
        OsError::Unknown
    }
}

/// Kinds of I/O errors that file and device operations report.
#[derive(Clone, Copy, Debug, PartialEq, Eq)]
pub enum IoErrorKind {
    NotFound,
    PermissionDenied,
    ConnectionRefused,
    ConnectionReset,
    ConnectionAborted,
    NotConnected,
    AddrInUse,
    AddrNotAvailable,
    BrokenPipe,
    AlreadyExists,
    WouldBlock,
    InvalidInput,
    InvalidData,
    TimedOut,
    WriteZero,
    Interrupted,
    Other,
    UnexpectedEof,
}

/// The system-call error an I/O error is reported as.
pub open spec fn os_error_from_io_spec(k: IoErrorKind) -> OsError {
    match k {
        IoErrorKind::UnexpectedEof => OsError::IoErrorEof,
        IoErrorKind::InvalidData => OsError::IoErrorInvalidData,
        IoErrorKind::InvalidInput => OsError::IoErrorInvalidInput,
        IoErrorKind::TimedOut => OsError::IoErrorTimedOut,
        IoErrorKind::NotFound => OsError::NoEntry,
        _ => OsError::IoError,
    }
}

/// The name an error is printed by; success is printed `Ok`.
pub open spec fn os_error_name(e: OsError) -> Seq<u8> {
    match e {
        OsError::Unknown => "Unknown".spec_bytes(),
        OsError::Success => "Ok".spec_bytes(),
        OsError::Utf8Error => "Utf8Error".spec_bytes(),
        OsError::FmtError => "FmtError".spec_bytes(),
        OsError::InvalidPid => "InvalidPid".spec_bytes(),
        OsError::MaxPidExceeded => "MaxPidExceeded".spec_bytes(),
        OsError::NoEntry => "NoEntry".spec_bytes(),
        OsError::NoMemory => "NoMemory".spec_bytes(),
        OsError::NoVmSpace => "NoVmSpace".spec_bytes(),
        OsError::NoAccess => "NoAccess".spec_bytes(),
        OsError::BadAddress => "BadAddress".spec_bytes(),
        OsError::FileExists => "FileExists".spec_bytes(),
        OsError::InvalidArgument => "InvalidArgument".spec_bytes(),
        OsError::NotAFile => "NotAFile".spec_bytes(),
        OsError::NotADir => "NotADir".spec_bytes(),
        OsError::IoError => "IoError".spec_bytes(),
        OsError::IoErrorEof => "IoErrorEof".spec_bytes(),
        OsError::IoErrorInvalidData => "IoErrorInvalidData".spec_bytes(),
        OsError::IoErrorInvalidInput => "IoErrorInvalidInput".spec_bytes(),
        OsError::IoErrorTimedOut => "IoErrorTimedOut".spec_bytes(),
        OsError::InvalidSocket => "InvalidSocket".spec_bytes(),
        OsError::IllegalSocketOperation => "IllegalSocketOperation".spec_bytes(),
    }
}

impl OsError {
    /// The name this error is printed by.
    pub fn debug_name(&self) -> (r: &'static str)
        ensures
            r.spec_bytes() == os_error_name(*self),
    {
        match self {
            OsError::Unknown => "Unknown",
            OsError::Success => "Ok",
            OsError::Utf8Error => "Utf8Error",
            OsError::FmtError => "FmtError",
            OsError::InvalidPid => "InvalidPid",
            OsError::MaxPidExceeded => "MaxPidExceeded",
            OsError::NoEntry => "NoEntry",
            OsError::NoMemory => "NoMemory",
            OsError::NoVmSpace => "NoVmSpace",
            OsError::NoAccess => "NoAccess",
            OsError::BadAddress => "BadAddress",
            OsError::FileExists => "FileExists",
            OsError::InvalidArgument => "InvalidArgument",
            OsError::NotAFile => "NotAFile",
            OsError::NotADir => "NotADir",
            OsError::IoError => "IoError",
            OsError::IoErrorEof => "IoErrorEof",
            OsError::IoErrorInvalidData => "IoErrorInvalidData",
            OsError::IoErrorInvalidInput => "IoErrorInvalidInput",
            OsError::IoErrorTimedOut => "IoErrorTimedOut",
            OsError::InvalidSocket => "InvalidSocket",
            OsError::IllegalSocketOperation => "IllegalSocketOperation",
        }
    }
}

impl OsError {
    /// The register encoding of this error.
    pub fn code(&self) -> (r: u64)
        ensures
            r == os_error_code(*self),
    {
        match self {
            OsError::Unknown => 0,
            OsError::Success => 1,
            OsError::Utf8Error => 2,
            OsError::FmtError => 3,
            OsError::InvalidPid => 4,
            OsError::MaxPidExceeded => 5,
            OsError::NoEntry => 10,
            OsError::NoMemory => 20,
            OsError::NoVmSpace => 30,
            OsError::NoAccess => 40,
            OsError::BadAddress => 50,
            OsError::FileExists => 60,
            OsError::InvalidArgument => 70,
            OsError::NotAFile => 80,
            OsError::NotADir => 90,
            OsError::IoError => 101,
            OsError::IoErrorEof => 102,
            OsError::IoErrorInvalidData => 103,
            OsError::IoErrorInvalidInput => 104,
            OsError::IoErrorTimedOut => 105,
            OsError::InvalidSocket => 200,
            OsError::IllegalSocketOperation => 201,
        }
    }

    /// Decodes the status value a system call left in `x7`.
    pub fn from_code(e: u64) -> (r: OsError)
        ensures
            r == os_error_from_code(e),
    {
        if e == 1 {
            OsError::Success
        } else if e == 2 {
            OsError::Utf8Error
        } else if e == 3 {
            OsError::FmtError
        } else if e == 4 {
            OsError::InvalidPid
        } else if e == 5 {
            OsError::MaxPidExceeded
        } else if e == 10 {
            OsError::NoEntry
        } else if e == 20 {
            OsError::NoMemory
        } else if e == 30 {
            OsError::NoVmSpace
        } else if e == 40 {
            OsError::NoAccess
        } else if e == 50 {
            OsError::BadAddress
        } else if e == 60 {
            OsError::FileExists
        } else if e == 70 {
            OsError::InvalidArgument
        } else if e == 80 {
            OsError::NotAFile
        } else if e == 90 {
            OsError::NotADir
        } else if e == 101 {
            OsError::IoError
        } else if e == 102 {
            OsError::IoErrorEof
        } else if e == 103 {
            OsError::IoErrorInvalidData
        } else if e == 104 {
            OsError::IoErrorInvalidInput
        } else if e == 200 {
            OsError::InvalidSocket
        } else if e == 201 {
            OsError::IllegalSocketOperation
        } else {
            OsError::Unknown
        }
    }

    /// The system-call error an I/O error is reported as.
    pub fn from_io(k: IoErrorKind) -> (r: OsError)
        ensures
            r == os_error_from_io_spec(k),
    {
        match k {
            IoErrorKind::UnexpectedEof => OsError::IoErrorEof,
            IoErrorKind::InvalidData => OsError::IoErrorInvalidData,
            IoErrorKind::InvalidInput => OsError::IoErrorInvalidInput,
            IoErrorKind::TimedOut => OsError::IoErrorTimedOut,
            IoErrorKind::NotFound => OsError::NoEntry,
            _ => OsError::IoError,
        }
    }

    /// The status a system call returns, as a result: `Ok(value)` for the
    /// success code, the decoded error otherwise.
    pub fn check<T>(ecode: u64, value: T) -> (r: Result<T, OsError>)
        ensures
            os_error_from_code(ecode) == OsError::Success ==> r == Ok::<T, OsError>(value),
            os_error_from_code(ecode) != OsError::Success ==> r == Err::<T, OsError>(
                os_error_from_code(ecode),
            ),
    {
        let e = OsError::from_code(ecode);
        match e {
            OsError::Success => Ok(value),
            _ => Err(e),
        }
    }
}

/// Every error except the time-out survives encoding and decoding.
pub proof fn lemma_code_round_trip(e: OsError)
    requires
        e != OsError::IoErrorTimedOut,
    ensures
        os_error_from_code(os_error_code(e)) == e,
{
}

} // verus!
