use vstd::prelude::*;

verus! {

/// What an update check decided.
#[derive(Debug, PartialEq, Eq, Clone)]
pub struct UpdateDecision {
    pub available: bool,
    pub current_version: String,
    /// The remote version, reported only when an update is available.
    pub latest_version: Option<String>,
    /// Where to download it, reported only when an update is available.
    pub download_url: Option<String>,
}

/// Decide whether an update is available: exactly when the remote
/// version string differs from the local one, by string equality, not
/// by any ordering.
pub fn decide_update(current: String, remote_version: String, remote_url: String) -> (d:
    UpdateDecision)
    ensures
        d.available == (current@ != remote_version@),
        d.current_version@ == current@,
        d.available ==> (d.latest_version matches Some(v) && v@ == remote_version@),
        d.available ==> (d.download_url matches Some(u) && u@ == remote_url@),
        !d.available ==> d.latest_version is None && d.download_url is None,
{
    let available = !(current == remote_version);
    if available {
        UpdateDecision {
            available,
            current_version: current,
            latest_version: Some(remote_version),
            download_url: Some(remote_url),
        }
    } else {
        UpdateDecision {
            available,
            current_version: current,
            latest_version: None,
            download_url: None,
        }
    }
}

} // verus!
