use vstd::prelude::*;

verus! {

/// Why an update attempt failed.
#[derive(Debug, Clone, Copy, PartialEq, Eq)]
pub enum UpdateError {
    /// The downloaded payload held no bytes at all.
    EmptyPayload,
    /// The payload is not a readable archive.
    ArchiveUnreadable,
    /// The entry at `index` could not be read from the archive.
    EntryUnreadable { index: usize },
    /// The entry at `index` failed to decompress; its partial output was
    /// removed.
    CorruptEntry { index: usize },
}

/// Why the installed client cannot be launched.
#[derive(Debug, Clone, Copy, PartialEq, Eq)]
pub enum LaunchError {
    /// The expected executable is missing: nothing is installed.
    NotInstalled,
}

impl UpdateError {
    /// A short description for the host to surface.
    pub fn describe(&self) -> (r: &'static str)
        ensures
            r@ == match *self {
                UpdateError::EmptyPayload => "downloaded file is empty"@,
                UpdateError::ArchiveUnreadable => "the archive could not be read; it may be corrupted"@,
                UpdateError::EntryUnreadable { .. } => "an archive entry could not be read"@,
                UpdateError::CorruptEntry { .. } => "an archive entry failed to extract; it may be corrupted"@,
            },
    {
        match self {
            UpdateError::EmptyPayload => "downloaded file is empty",
            UpdateError::ArchiveUnreadable => "the archive could not be read; it may be corrupted",
            UpdateError::EntryUnreadable { .. } => "an archive entry could not be read",
            UpdateError::CorruptEntry { .. } => "an archive entry failed to extract; it may be corrupted",
        }
    }
}

impl LaunchError {
    /// A short description for the host to surface.
    pub fn describe(&self) -> (r: &'static str)
        ensures
            r@ == "client executable not found; update the client first"@,
    {
        match self {
            LaunchError::NotInstalled => "client executable not found; update the client first",
        }
    }
}

} // verus!
