//! The helper process's side of status reporting, and the update-check
//! summary.
//!
//! A status-reporting helper learns its session id, this instance's
//! identity and the status URL from its environment; any of the three
//! may be missing. Building the payload — including the graceful
//! degradation when no URL is configured and the defaults for missing
//! identity — is decided here; the HTTP POST and the clock live
//! outside.

use vstd::prelude::*;

verus! {

/// The body a helper process posts to the status endpoint.
pub struct StatusPayload {
    pub session_id: u32,
    pub instance_id: String,
    pub state: String,
    pub message: String,
    pub needs_input_prompt: Option<String>,
    pub timestamp: String,
}

/// A status reporter's configuration, as read from the environment.
pub struct StatusReporter {
    pub status_url: Option<String>,
    pub session_id: Option<u32>,
    pub instance_id: Option<String>,
}

impl StatusReporter {
    /// A reporter with whatever configuration the environment offered.
    pub fn new(status_url: Option<String>, session_id: Option<u32>, instance_id: Option<String>)
        -> (r: StatusReporter)
        ensures
            r.status_url == status_url,
            r.session_id == session_id,
            r.instance_id == instance_id,
    {
        StatusReporter { status_url, session_id, instance_id }
    }

    /// The payload to post for one report, or nothing when no status
    /// URL is configured (reporting then degrades to a no-op that
    /// still succeeds). A missing session id reports as 0, a missing
    /// instance identity as `unknown`.
    pub fn build_payload(
        &self,
        state: &str,
        message: &str,
        needs_input_prompt: Option<String>,
        timestamp: String,
    ) -> (r: Option<StatusPayload>)
        ensures
            r is Some <==> self.status_url is Some,
            r matches Some(p) ==> {
                &&& p.session_id == (match self.session_id {
                    Some(id) => id,
                    None => 0u32,
                })
                &&& p.instance_id@ == (match self.instance_id {
                    Some(iid) => iid@,
                    None => "unknown"@,
                })
                &&& p.state@ == state@
                &&& p.message@ == message@
                &&& p.needs_input_prompt == needs_input_prompt
                &&& p.timestamp == timestamp
            },
    {
        if self.status_url.is_none() {
            return None;
        }
        let session_id = match &self.session_id {
            Some(id) => *id,
            None => 0,
        };
        let instance_id = match &self.instance_id {
            Some(iid) => iid.clone(),
            None => String::from_str("unknown"),
        };
        Some(
            StatusPayload {
                session_id,
                instance_id,
                state: state.to_owned(),
                message: message.to_owned(),
                needs_input_prompt,
                timestamp,
            },
        )
    }
}

/// What an update check reports to the UI.
pub struct UpdateInfo {
    pub available: bool,
    pub current_version: String,
    pub latest_version: String,
    pub release_notes: Option<String>,
    pub date: Option<String>,
}

/// What the update endpoint said about the newest release.
pub struct UpdateCheck {
    pub version: String,
    pub release_notes: Option<String>,
    pub date: Option<String>,
}

impl UpdateInfo {
    /// The UI summary of an update check: a found release reports as
    /// available with its version, notes and date; no release reports
    /// the current version as the latest, with neither notes nor date.
    pub fn from_check(current_version: String, found: Option<UpdateCheck>) -> (r: UpdateInfo)
        ensures
            r.available == found is Some,
            r.current_version == current_version,
            match found {
                Some(u) => r.latest_version == u.version && r.release_notes == u.release_notes
                    && r.date == u.date,
                None => r.latest_version == current_version && r.release_notes is None
                    && r.date is None,
            },
    {
        match found {
            Some(u) => UpdateInfo {
                available: true,
                current_version,
                latest_version: u.version,
                release_notes: u.release_notes,
                date: u.date,
            },
            None => {
                let latest = current_version.clone();
                UpdateInfo {
                    available: false,
                    current_version,
                    latest_version: latest,
                    release_notes: None,
                    date: None,
                }
            },
        }
    }
}

} // verus!
