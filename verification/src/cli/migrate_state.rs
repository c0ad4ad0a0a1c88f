//! `migrate-state`: bring a state file to the JSON v1 schema, from a missing
//! file, a legacy single-line RFC 3339 timestamp, or JSON v1 itself.

use vstd::prelude::*;
use crate::state::{parse_rfc3339, rfc3339_instant, StateFile, StateView, Timestamp, SCHEMA_VERSION};
use crate::row::{decimal, decimal_chars};
use crate::text::{from_chars, push_all, to_chars, trim, vtrim};

verus! {

/// Why a state file cannot be migrated.
#[derive(Debug)]
pub enum MigrateError {
    /// The content is neither JSON v1 nor a single-line RFC 3339 timestamp.
    FormatUnknown { path: String },
    /// The content is JSON of the state's shape with another schema version.
    UnsupportedSchema { path: String, found: u32, expected: u32 },
}

impl MigrateError {
    /// The text of the error's message.
    pub open spec fn message_spec(&self) -> Seq<char> {
        match self {
            MigrateError::FormatUnknown { path } =>
                "state file `"@ + path@ + "` format unrecognised (not JSON v1, not single-line ISO-8601 timestamp)"@,
            MigrateError::UnsupportedSchema { path, found, expected } =>
                "state file `"@ + path@ + "` has unsupported schema_version "@ + decimal(*found as nat)
                    + " (expected "@ + decimal(*expected as nat) + ")"@,
        }
    }

    /// The error's message.
    pub fn message(&self) -> (r: String)
        ensures
            r@ == self.message_spec(),
    {
        let mut v = to_chars("state file `");
        match self {
            MigrateError::FormatUnknown { path } => {
                push_all(&mut v, &to_chars(path.as_str()));
                push_all(&mut v, &to_chars("` format unrecognised (not JSON v1, not single-line ISO-8601 timestamp)"));
            },
            MigrateError::UnsupportedSchema { path, found, expected } => {
                push_all(&mut v, &to_chars(path.as_str()));
                push_all(&mut v, &to_chars("` has unsupported schema_version "));
                push_all(&mut v, &decimal_chars(*found as u64));
                push_all(&mut v, &to_chars(" (expected "));
                push_all(&mut v, &decimal_chars(*expected as u64));
                push_all(&mut v, &to_chars(")"));
            },
        }
        from_chars(&v)
    }
}

/// The format a state file was found in.
#[derive(Clone, Copy, Debug, PartialEq, Eq, Structural)]
pub enum MigrateSource {
    /// No file.
    Missing,
    /// A single-line RFC 3339 timestamp.
    Legacy,
    /// JSON of the current schema.
    JsonV1,
}

impl MigrateSource {
    /// The label of the format.
    pub open spec fn label_spec(self) -> Seq<char> {
        match self {
            MigrateSource::Missing => "missing"@,
            MigrateSource::Legacy => "legacy"@,
            MigrateSource::JsonV1 => "json-v1"@,
        }
    }

    /// The label of the format (`missing`, `legacy`, `json-v1`).
    pub fn label(&self) -> (r: &'static str)
        ensures
            r@ == self.label_spec(),
    {
        match self {
            MigrateSource::Missing => "missing",
            MigrateSource::Legacy => "legacy",
            MigrateSource::JsonV1 => "json-v1",
        }
    }
}

/// A fresh JSON v1 state at `t` with no seen IDs and an empty agent version.
pub open spec fn fresh_state(t: Timestamp) -> StateView {
    StateView { schema_version: SCHEMA_VERSION, last_scan_at: t, seen: seq![], agent_version: seq![] }
}

fn fresh(t: Timestamp) -> (s: StateFile)
    ensures
        s@ == fresh_state(t),
{
    let s = StateFile { schema_version: SCHEMA_VERSION, last_scan_at: t, seen_advisories: Vec::new(), agent_version: String::new() };
    assert(s@.seen == Seq::<Seq<char>>::empty());
    s
}

/// The format found and the JSON v1 state that a migration produces from the
/// file's text `raw` (`None`: no file) and its decoding `json`; `None` when
/// the migration fails.
pub open spec fn spec_migrate(raw: Option<Seq<char>>, json: Option<StateView>, now: Timestamp)
    -> Option<(MigrateSource, StateView)> {
    match raw {
        None => Some((MigrateSource::Missing, fresh_state(now))),
        Some(t) => match json {
            Some(p) => if p.schema_version == SCHEMA_VERSION { Some((MigrateSource::JsonV1, p)) } else { None },
            None => match rfc3339_instant(trim(t)) {
                Some((secs, nanos)) => Some((MigrateSource::Legacy, fresh_state(Timestamp { secs, nanos }))),
                None => None,
            },
        },
    }
}

/// The text of a file that may be absent.
pub open spec fn text_view(raw: Option<&str>) -> Option<Seq<char>> {
    match raw {
        Some(t) => Some(t@),
        None => None,
    }
}

/// The model of a decoded state that may be absent.
pub open spec fn state_view(json: Option<StateFile>) -> Option<StateView> {
    match json {
        Some(p) => Some(p@),
        None => None,
    }
}

/// Migration is idempotent: what a migration produces has the current schema
/// version, and migrating a file that holds it (whatever its text, read back
/// as that state, at whatever time) gives it back unchanged, as JSON v1.
pub proof fn law_migrate_idempotent(raw: Option<Seq<char>>, json: Option<StateView>, now: Timestamp, text: Seq<char>, later: Timestamp)
    requires
        spec_migrate(raw, json, now) is Some,
    ensures
        match spec_migrate(raw, json, now) {
            Some((_, s)) => s.schema_version == SCHEMA_VERSION
                && spec_migrate(Some(text), Some(s), later) == Some((MigrateSource::JsonV1, s)),
            None => false,
        },
{
}

/// Classifies a state file and builds its JSON v1 form.
///
/// `raw` is the file's text (`None` when the file does not exist) and `json`
/// its decoding as a state file (`None` when it is not JSON of that shape).
/// A missing file becomes a fresh state at `now`; JSON v1 is kept as it is;
/// JSON of another schema version is `UnsupportedSchema`; otherwise the
/// trimmed text must be an RFC 3339 timestamp, which becomes `last_scan_at`
/// of a fresh state, and anything else is `FormatUnknown`.
pub fn migrate(raw: Option<&str>, json: Option<StateFile>, now: Timestamp, path: &str)
    -> (r: Result<(MigrateSource, StateFile), MigrateError>)
    ensures
        r is Ok <==> spec_migrate(text_view(raw), state_view(json), now) is Some,
        r matches Ok((src, s)) ==> spec_migrate(text_view(raw), state_view(json), now) == Some((src, s@)),
        match raw {
            None => r matches Ok((src, s)) && src == MigrateSource::Missing && s@ == fresh_state(now),
            Some(t) => match json {
                Some(p) => if p.schema_version == SCHEMA_VERSION {
                    r matches Ok((src, s)) && src == MigrateSource::JsonV1 && s@ == p@
                } else {
                    r matches Err(MigrateError::UnsupportedSchema { path: q, found, expected })
                        && q@ == path@ && found == p.schema_version && expected == SCHEMA_VERSION
                },
                None => match rfc3339_instant(trim(t@)) {
                    Some((secs, nanos)) => r matches Ok((src, s)) && src == MigrateSource::Legacy
                        && s@ == fresh_state(Timestamp { secs, nanos }),
                    None => r matches Err(MigrateError::FormatUnknown { path: q }) && q@ == path@,
                },
            },
        },
{
    match raw {
        None => Ok((MigrateSource::Missing, fresh(now))),
        Some(text) => match json {
            Some(parsed) => {
                if parsed.schema_version != SCHEMA_VERSION {
                    Err(MigrateError::UnsupportedSchema {
                        path: from_chars(&to_chars(path)),
                        found: parsed.schema_version,
                        expected: SCHEMA_VERSION,
                    })
                } else {
                    Ok((MigrateSource::JsonV1, parsed))
                }
            },
            None => {
                let trimmed = from_chars(&vtrim(&to_chars(text)));
                match parse_rfc3339(trimmed.as_str()) {
                    Some(t) => Ok((MigrateSource::Legacy, fresh(t))),
                    None => Err(MigrateError::FormatUnknown { path: from_chars(&to_chars(path)) }),
                }
            },
        },
    }
}

} // verus!
