//! The error of the filesystem layer: its stable log token, whether it
//! means "absent", the firmware status it maps to, and its message.
use vstd::prelude::*;

use crate::fs_types::{BackendTag, PathError};
use crate::text::concat_str;

verus! {

/// The firmware's error bit: the top bit of a status word.
pub const ERROR_BIT: usize = 1usize << (usize::BITS - 1);

/// Firmware status codes (`EFI_STATUS`) this layer reports.
pub const STATUS_LOAD_ERROR: usize = ERROR_BIT | 1;
pub const STATUS_INVALID_PARAMETER: usize = ERROR_BIT | 2;
pub const STATUS_UNSUPPORTED: usize = ERROR_BIT | 3;
pub const STATUS_DEVICE_ERROR: usize = ERROR_BIT | 7;
pub const STATUS_VOLUME_CORRUPTED: usize = ERROR_BIT | 10;
pub const STATUS_NOT_FOUND: usize = ERROR_BIT | 14;
pub const STATUS_ACCESS_DENIED: usize = ERROR_BIT | 15;
pub const STATUS_SECURITY_VIOLATION: usize = ERROR_BIT | 26;

/// Why a filesystem operation failed.
#[derive(Debug)]
pub enum FsError {
    NotFound,
    PermissionDenied,
    IsDirectory,
    NotDirectory,
    InvalidPath(&'static str),
    Unsupported(&'static str),
    UnsupportedFeature { feature: &'static str, backend: BackendTag },
    Corrupt(&'static str),
    /// A firmware call failed with `status`; `detail` is the firmware
    /// error's own description.
    Io { status: usize, detail: String },
    /// A backend error the adapter could not classify, by its description.
    BackendOther(String),
}

/// The short stable token of an error, for the trust log's status field.
pub open spec fn log_token(e: FsError) -> Seq<char> {
    match e {
        FsError::NotFound => "not_found"@,
        FsError::PermissionDenied => "permission_denied"@,
        FsError::IsDirectory => "is_directory"@,
        FsError::NotDirectory => "not_directory"@,
        FsError::InvalidPath(_) => "invalid_path"@,
        FsError::Unsupported(_) => "unsupported"@,
        FsError::UnsupportedFeature { .. } => "unsupported_feature"@,
        FsError::Corrupt(_) => "fs_corrupt"@,
        FsError::Io { .. } => "io_error"@,
        FsError::BackendOther(_) => "backend_other"@,
    }
}

/// The firmware status that best matches an error; an I/O error keeps the
/// firmware's own.
pub open spec fn status_of(e: FsError) -> usize {
    match e {
        FsError::NotFound => STATUS_NOT_FOUND,
        FsError::PermissionDenied => STATUS_ACCESS_DENIED,
        FsError::IsDirectory => STATUS_INVALID_PARAMETER,
        FsError::NotDirectory => STATUS_INVALID_PARAMETER,
        FsError::InvalidPath(_) => STATUS_INVALID_PARAMETER,
        FsError::Unsupported(_) => STATUS_UNSUPPORTED,
        FsError::UnsupportedFeature { .. } => STATUS_UNSUPPORTED,
        FsError::Corrupt(_) => STATUS_VOLUME_CORRUPTED,
        FsError::Io { status, .. } => status,
        FsError::BackendOther(_) => STATUS_DEVICE_ERROR,
    }
}

/// The human-readable message of an error.
pub open spec fn error_text(e: FsError) -> Seq<char> {
    match e {
        FsError::NotFound => "not found"@,
        FsError::PermissionDenied => "permission denied"@,
        FsError::IsDirectory => "is a directory"@,
        FsError::NotDirectory => "not a directory"@,
        FsError::InvalidPath(reason) => "invalid path: "@ + reason@,
        FsError::Unsupported(what) => "unsupported: "@ + what@,
        FsError::UnsupportedFeature { feature, backend } => "unsupported feature "@ + feature@
            + " on backend "@ + backend@,
        FsError::Corrupt(what) => "filesystem corrupt: "@ + what@,
        FsError::Io { detail, .. } => "I/O error: "@ + detail@,
        FsError::BackendOther(detail) => "backend error: "@ + detail@,
    }
}

/// The error a path error becomes.
pub open spec fn from_path_error(e: PathError) -> FsError {
    match e {
        PathError::Empty => FsError::InvalidPath("empty"),
        PathError::NotAbsolute => FsError::InvalidPath("not absolute"),
        PathError::AboveRoot => FsError::InvalidPath("above root"),
    }
}

impl FsError {
    /// Short stable string for the trust log's `status` field and logs.
    pub fn as_log_token(&self) -> (r: &'static str)
        ensures
            r@ == log_token(*self),
    {
        match self {
            FsError::NotFound => "not_found",
            FsError::PermissionDenied => "permission_denied",
            FsError::IsDirectory => "is_directory",
            FsError::NotDirectory => "not_directory",
            FsError::InvalidPath(_) => "invalid_path",
            FsError::Unsupported(_) => "unsupported",
            FsError::UnsupportedFeature { .. } => "unsupported_feature",
            FsError::Corrupt(_) => "fs_corrupt",
            FsError::Io { .. } => "io_error",
            FsError::BackendOther(_) => "backend_other",
        }
    }

    /// Whether the error means "file absent" rather than a failure.
    pub fn is_not_found(&self) -> (r: bool)
        ensures
            r == (*self is NotFound),
    {
        match self {
            FsError::NotFound => true,
            _ => false,
        }
    }

    /// The best-matching firmware status, for callers that report one.
    pub fn to_uefi_status(&self) -> (r: usize)
        ensures
            r == status_of(*self),
    {
        match self {
            FsError::NotFound => STATUS_NOT_FOUND,
            FsError::PermissionDenied => STATUS_ACCESS_DENIED,
            FsError::IsDirectory | FsError::NotDirectory | FsError::InvalidPath(_) => {
                STATUS_INVALID_PARAMETER
            },
            FsError::Unsupported(_) | FsError::UnsupportedFeature { .. } => STATUS_UNSUPPORTED,
            FsError::Corrupt(_) => STATUS_VOLUME_CORRUPTED,
            FsError::Io { status, .. } => *status,
            FsError::BackendOther(_) => STATUS_DEVICE_ERROR,
        }
    }

    /// The error's message, as shown in logs.
    pub fn message(&self) -> (r: String)
        ensures
            r@ == error_text(*self),
    {
        match self {
            FsError::NotFound => String::from_str("not found"),
            FsError::PermissionDenied => String::from_str("permission denied"),
            FsError::IsDirectory => String::from_str("is a directory"),
            FsError::NotDirectory => String::from_str("not a directory"),
            FsError::InvalidPath(reason) => concat_str("invalid path: ", reason),
            FsError::Unsupported(what) => concat_str("unsupported: ", what),
            FsError::UnsupportedFeature { feature, backend } => {
                let mut s = concat_str("unsupported feature ", feature);
                s.append(" on backend ");
                s.append(backend);
                s
            },
            FsError::Corrupt(what) => concat_str("filesystem corrupt: ", what),
            FsError::Io { detail, .. } => concat_str("I/O error: ", detail.as_str()),
            FsError::BackendOther(detail) => concat_str("backend error: ", detail.as_str()),
        }
    }
}

impl From<PathError> for FsError {
    fn from(err: PathError) -> (r: FsError) {
        match err {
            PathError::Empty => FsError::InvalidPath("empty"),
            PathError::NotAbsolute => FsError::InvalidPath("not absolute"),
            PathError::AboveRoot => FsError::InvalidPath("above root"),
        }
    }
}

impl vstd::std_specs::convert::FromSpecImpl<PathError> for FsError {
    open spec fn obeys_from_spec() -> bool {
        true
    }

    open spec fn from_spec(v: PathError) -> FsError {
        from_path_error(v)
    }
}

} // verus!
