use advisory_inbox::state::{check_schema, StateFile, StateReadError, Timestamp, SCHEMA_VERSION};

fn sample_state() -> StateFile {
    StateFile {
        schema_version: SCHEMA_VERSION,
        // 2026-05-28T09:51:35Z
        last_scan_at: Timestamp { secs: 1_779_961_895, nanos: 0 },
        seen_advisories: vec![
            "CVE-2026-9256".to_string(),
            "GHSA-xxxx-yyyy".to_string(),
            "CVE-2026-27205".to_string(),
        ],
        agent_version: "advisory-watch@0.1.0".to_string(),
    }
}

#[test]
fn state_schema_version_constant_is_one() {
    assert_eq!(SCHEMA_VERSION, 1);
    assert_eq!(sample_state().schema_version, 1);
}

#[test]
fn check_schema_accepts_current_version() {
    let s = check_schema(sample_state(), "state.json").unwrap();
    assert_eq!(s, sample_state());
}

#[test]
fn check_schema_rejects_other_versions() {
    let mut s = sample_state();
    s.schema_version = 99;
    match check_schema(s, "/tmp/state.json").unwrap_err() {
        StateReadError::SchemaMismatch { path, found, expected } => {
            assert_eq!(path, "/tmp/state.json");
            assert_eq!(found, 99);
            assert_eq!(expected, 1);
        }
        other => panic!("expected SchemaMismatch, got {other:?}"),
    }
}

#[test]
fn schema_mismatch_message_names_migrate_state() {
    let mut s = sample_state();
    s.schema_version = 99;
    let err = check_schema(s, "/tmp/state.json").unwrap_err();
    assert_eq!(
        err.message(),
        "state file `/tmp/state.json` schema_version 99 != expected 1 — run `advisory-inbox migrate-state --state /tmp/state.json`"
    );
    assert!(err.message().contains("migrate-state"));
}

#[test]
fn io_and_json_messages() {
    let io = StateReadError::Io { path: "s.json".to_string(), message: "No such file".to_string() };
    assert_eq!(io.message(), "state file `s.json` unreadable: No such file");
    let js = StateReadError::Json { path: "s.json".to_string(), message: "EOF".to_string() };
    assert_eq!(js.message(), "state file `s.json` malformed JSON: EOF");
}
