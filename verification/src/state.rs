//! The scan state file (`.advisory-scan-state`): its model, the schema
//! check applied on read, and the reading of legacy RFC 3339 timestamps.

use vstd::prelude::*;
use crate::row::{decimal, decimal_chars};
use crate::text::{from_chars, push_all, string_views, to_chars};

verus! {

/// Current schema version of the state file.
pub const SCHEMA_VERSION: u32 = 1;

/// An instant: seconds since the Unix epoch (UTC) and nanoseconds past that second.
#[derive(Clone, Copy, Debug, PartialEq, Eq, Structural)]
pub struct Timestamp {
    pub secs: i64,
    pub nanos: u32,
}

/// The state file's content.
#[derive(Clone, Debug, PartialEq, Eq)]
pub struct StateFile {
    /// Schema version of the file (current: [`SCHEMA_VERSION`]).
    pub schema_version: u32,
    /// Time of the last scan.
    pub last_scan_at: Timestamp,
    /// Advisory IDs already processed (dedup source).
    pub seen_advisories: Vec<String>,
    /// Version tag of the emitting agent.
    pub agent_version: String,
}

/// The model of a [`StateFile`].
pub ghost struct StateView {
    pub schema_version: u32,
    pub last_scan_at: Timestamp,
    pub seen: Seq<Seq<char>>,
    pub agent_version: Seq<char>,
}

impl View for StateFile {
    type V = StateView;

    open spec fn view(&self) -> StateView {
        StateView {
            schema_version: self.schema_version,
            last_scan_at: self.last_scan_at,
            seen: string_views(self.seen_advisories@),
            agent_version: self.agent_version@,
        }
    }
}

/// Why a state file could not be loaded.
#[derive(Debug)]
pub enum StateReadError {
    /// The file is missing or unreadable.
    Io { path: String, message: String },
    /// The content is not JSON of the state file's shape.
    Json { path: String, message: String },
    /// `schema_version` differs from [`SCHEMA_VERSION`].
    SchemaMismatch { path: String, found: u32, expected: u32 },
}

impl StateReadError {
    /// The text of the error's message.
    pub open spec fn message_spec(&self) -> Seq<char> {
        match self {
            StateReadError::Io { path, message } => "state file `"@ + path@ + "` unreadable: "@ + message@,
            StateReadError::Json { path, message } => "state file `"@ + path@ + "` malformed JSON: "@ + message@,
            StateReadError::SchemaMismatch { path, found, expected } =>
                "state file `"@ + path@ + "` schema_version "@ + decimal(*found as nat) + " != expected "@
                    + decimal(*expected as nat) + " — run `advisory-inbox migrate-state --state "@ + path@ + "`"@,
        }
    }

    /// The error's message; a schema mismatch names the `migrate-state`
    /// command that fixes it.
    pub fn message(&self) -> (r: String)
        ensures
            r@ == self.message_spec(),
    {
        let mut v = to_chars("state file `");
        match self {
            StateReadError::Io { path, message } => {
                push_all(&mut v, &to_chars(path.as_str()));
                push_all(&mut v, &to_chars("` unreadable: "));
                push_all(&mut v, &to_chars(message.as_str()));
            },
            StateReadError::Json { path, message } => {
                push_all(&mut v, &to_chars(path.as_str()));
                push_all(&mut v, &to_chars("` malformed JSON: "));
                push_all(&mut v, &to_chars(message.as_str()));
            },
            StateReadError::SchemaMismatch { path, found, expected } => {
                push_all(&mut v, &to_chars(path.as_str()));
                push_all(&mut v, &to_chars("` schema_version "));
                push_all(&mut v, &decimal_chars(*found as u64));
                push_all(&mut v, &to_chars(" != expected "));
                push_all(&mut v, &decimal_chars(*expected as u64));
                push_all(&mut v, &to_chars(" — run `advisory-inbox migrate-state --state "));
                push_all(&mut v, &to_chars(path.as_str()));
                push_all(&mut v, &to_chars("`"));
            },
        }
        from_chars(&v)
    }
}

/// Accepts a decoded state file whose schema version is current; otherwise
/// `SchemaMismatch` naming `path`, the version found and the one expected.
pub fn check_schema(state: StateFile, path: &str) -> (r: Result<StateFile, StateReadError>)
    ensures
        state.schema_version == SCHEMA_VERSION ==> (r matches Ok(s) && s@ == state@),
        state.schema_version != SCHEMA_VERSION ==> (r matches Err(StateReadError::SchemaMismatch { path: p, found, expected })
            && p@ == path@ && found == state.schema_version && expected == SCHEMA_VERSION),
{
    if state.schema_version != SCHEMA_VERSION {
        return Err(StateReadError::SchemaMismatch {
            path: from_chars(&to_chars(path)),
            found: state.schema_version,
            expected: SCHEMA_VERSION,
        });
    }
    Ok(state)
}

/// The instant that chrono's `DateTime::parse_from_rfc3339` reads from a text,
/// as (UTC seconds since the epoch, sub-second nanoseconds); `None` when the
/// text is not an RFC 3339 date-time.
pub uninterp spec fn rfc3339_instant(s: Seq<char>) -> Option<(i64, u32)>;

/// chrono's `DateTime::parse_from_rfc3339`, read as an instant. The contract
/// names the result: it is a function of the text alone; what the grammar
/// accepts is chrono's and is not restated here.
#[verifier::external_body]
pub(crate) fn parse_rfc3339(s: &str) -> (r: Option<Timestamp>)
    ensures
        match rfc3339_instant(s@) {
            Some((secs, nanos)) => r == Some(Timestamp { secs, nanos }),
            None => r is None,
        },
{
    match chrono::DateTime::parse_from_rfc3339(s) {
        Ok(dt) => Some(Timestamp { secs: dt.timestamp(), nanos: dt.timestamp_subsec_nanos() }),
        Err(_) => None,
    }
}

} // verus!
