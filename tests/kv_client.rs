use timetracker::error::Error;
use timetracker::kv::{
    decode, delete_outcome, encode, projects_key, read_outcome, time_key, success_outcome,
    Endpoints, Session, WireValue,
};

#[test]
fn decode_unwraps_string_holding_json() {
    let w = WireValue::Text("[{\"a\":1}]".to_string());
    assert_eq!(decode(&w), "[{\"a\":1}]");
}

#[test]
fn decode_falls_back_to_raw_string() {
    let w = WireValue::Text("not json".to_string());
    assert_eq!(decode(&w), "\"not json\"");
}

#[test]
fn decode_keeps_non_string_value() {
    let w = WireValue::Json("{\"x\":true}".to_string());
    assert_eq!(decode(&w), "{\"x\":true}");
}

#[test]
fn decode_after_encode_is_identity() {
    for doc in ["[]", "{\"k\":[1,2]}", "\"s\"", "42", "null"] {
        assert_eq!(decode(&encode(doc.to_string())), doc);
    }
}

#[test]
fn read_of_absent_key_is_empty_list() {
    assert_eq!(read_outcome(404, None).unwrap(), "[]");
}

#[test]
fn read_success_decodes_value() {
    let r = read_outcome(200, Some(WireValue::Text("[1]".to_string())));
    assert_eq!(r.unwrap(), "[1]");
}

#[test]
fn read_success_without_value_is_malformed() {
    assert_eq!(read_outcome(200, None).unwrap_err(), Error::DeserializationError);
}

#[test]
fn read_other_status_is_api_error() {
    assert_eq!(read_outcome(500, None).unwrap_err(), Error::ApiError(500));
    assert_eq!(read_outcome(401, None).unwrap_err(), Error::ApiError(401));
}

#[test]
fn success_outcome_by_status() {
    assert!(success_outcome(201).is_ok());
    assert_eq!(success_outcome(404).unwrap_err(), Error::ApiError(404));
}

#[test]
fn delete_tolerates_absent_only_when_asked() {
    assert!(delete_outcome(204, false).is_ok());
    assert!(delete_outcome(404, true).is_ok());
    assert_eq!(delete_outcome(404, false).unwrap_err(), Error::ApiError(404));
    assert_eq!(delete_outcome(500, true).unwrap_err(), Error::ApiError(500));
}

#[test]
fn keys_of_projects_and_entries() {
    assert_eq!(projects_key(), "projects");
    assert_eq!(time_key("typeroof"), "projects/typeroof");
}

#[test]
fn endpoints_and_escaped_key_url() {
    let e = Endpoints::new("https://kv.example", "timetracker");
    assert_eq!(e.login_url, "https://kv.example/login");
    assert_eq!(e.data_url, "https://kv.example/timetracker/data");
    assert_eq!(e.key_url("projects"), "https://kv.example/timetracker/data/projects");
    assert_eq!(
        e.key_url("projects/a b"),
        "https://kv.example/timetracker/data/projects%2Fa%20b"
    );
}

#[test]
fn session_requires_credential() {
    assert_eq!(Session::new().authorization().unwrap_err(), Error::NotAuthenticated);
    let s = Session::with_token("abc".to_string());
    assert!(s.is_authenticated());
    assert_eq!(s.authorization().unwrap(), "Bearer abc");
}

#[test]
fn error_statuses() {
    assert_eq!(Error::ApiError(503).status(), Some(503));
    assert_eq!(Error::AuthenticationFailed(401).status(), Some(401));
    assert_eq!(Error::DuplicateSlug.status(), None);
    assert!(!Error::NotFound.message().is_empty());
}
