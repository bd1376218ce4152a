use dssp_bot::store::tracks_in_flight;

const PATH: &str = "/tmp/batches/dssp.checkpoint.json";

#[test]
fn a_file_with_an_in_flight_key_tracks_it_even_when_null() {
    assert_eq!(tracks_in_flight(PATH, r#"{"status":"running","in_flight":null}"#), Ok(true));
    assert_eq!(tracks_in_flight(PATH, r#"{"in_flight":"7"}"#), Ok(true));
}

#[test]
fn a_file_written_before_in_flight_existed_says_so() {
    let older = r#"{"status":"running","started_at":"1758285600000","updated_at":"1758285900000",
                "total":1,"results":[],"pending":["1"]}"#;
    assert_eq!(tracks_in_flight(PATH, older), Ok(false));
}

#[test]
fn json_that_is_not_an_object_holds_no_key() {
    assert_eq!(tracks_in_flight(PATH, "[1, 2]"), Ok(false));
}

#[test]
fn a_corrupt_file_is_an_error_not_an_empty_result() {
    let error = tracks_in_flight(PATH, r#"{"status":"running","resul"#)
        .expect_err("must not be read as nothing");
    assert!(error.contains("unreadable checkpoint"), "{error}");
    assert!(error.contains("dssp.checkpoint.json"), "{error}");
    assert!(error.starts_with(PATH), "{error}");
}

#[test]
fn a_key_named_like_in_flight_but_nested_does_not_count() {
    assert_eq!(tracks_in_flight(PATH, r#"{"results":[{"in_flight":null}]}"#), Ok(false));
}
