use asciinema::api::{
    add_recording_changeset_fields, get_auth_url, format_error_response, render_error_response, ErrorDetail,
    ErrorResponse, RecordingChangeset, Visibility,
};

const SERVER_HOSTNAME: &str = "example.com";

// Reads an error reply the way the client's JSON deserialization does: the
// whole reply is refused when it is not a JSON object with the expected
// field types, and a detail that is not a detail object is skipped.
fn parse_error_response(body: &[u8]) -> Option<ErrorResponse> {
    let value: serde_json::Value = serde_json::from_slice(body).ok()?;
    let object = value.as_object()?;

    let string_field = |name: &str| -> Result<Option<String>, ()> {
        match object.get(name) {
            None | Some(serde_json::Value::Null) => Ok(None),
            Some(serde_json::Value::String(s)) => Ok(Some(s.clone())),
            Some(_) => Err(()),
        }
    };

    let error_type = string_field("type").ok()?;
    let message = string_field("message").ok()?;

    let details = match object.get("details") {
        Some(serde_json::Value::Array(items)) => Some(
            items
                .iter()
                .map(|item| {
                    let item = item.as_object()?;
                    let message = item.get("message")?.as_str()?.to_owned();
                    let field = match item.get("field") {
                        None | Some(serde_json::Value::Null) => None,
                        Some(serde_json::Value::String(s)) => Some(s.clone()),
                        Some(_) => return None,
                    };
                    Some(ErrorDetail { field, message })
                })
                .collect(),
        ),
        _ => None,
    };

    Some(ErrorResponse {
        error_type,
        message,
        details,
    })
}

fn parse_error_message(body: &[u8]) -> Option<String> {
    parse_error_response(body).and_then(format_error_response)
}

fn render_error_message(body: &[u8]) -> Option<String> {
    parse_error_response(body).and_then(|response| render_error_response(response, SERVER_HOSTNAME))
}

#[test]
fn augments_account_required_error() {
    let body = br#"{
        "type": "account_required",
        "message": "This action requires an account"
    }"#;

    assert_eq!(
        render_error_message(body),
        Some(
            "This action requires an account\n\n\
             Run `asciinema auth` to link this CLI to your example.com account."
                .to_owned()
        )
    );
}

#[test]
fn augments_upload_limit_reached_error() {
    let body = br#"{
        "type": "upload_limit_reached",
        "message": "Anonymous upload limit reached"
    }"#;

    assert_eq!(
        render_error_message(body),
        Some(
            "Anonymous upload limit reached\n\n\
             Run `asciinema auth` and follow the link to upload more."
                .to_owned()
        )
    );
}

#[test]
fn leaves_unauthenticated_error_verbatim() {
    let body = br#"{
        "type": "unauthenticated",
        "message": "Installation ID has been revoked"
    }"#;

    assert_eq!(
        render_error_message(body),
        Some("Installation ID has been revoked".to_owned())
    );
}

#[test]
fn leaves_unknown_error_type_verbatim() {
    let body = br#"{
        "type": "future_error",
        "message": "A future server error"
    }"#;

    assert_eq!(
        render_error_message(body),
        Some("A future server error".to_owned())
    );
}

#[test]
fn formats_validation_error_details() {
    let body = br#"{
        "type": "validation_failed",
        "message": "Validation failed",
        "details": [
            {
                "field": "audio_url",
                "message": "has invalid format"
            },
            {
                "field": "audio_url",
                "message": "should be at most 255 character(s)"
            }
        ]
    }"#;

    assert_eq!(
        render_error_message(body),
        Some(
            "Validation failed:\n  audio_url: has invalid format\n  \
             audio_url: should be at most 255 character(s)"
                .to_owned()
        )
    );
}

#[test]
fn ignores_invalid_validation_error_details() {
    for body in [
        br#"{
            "type": "validation_failed",
            "message": "Validation failed"
        }"#
        .as_slice(),
        br#"{
            "type": "validation_failed",
            "message": "Validation failed",
            "details": "invalid"
        }"#
        .as_slice(),
        br#"{
            "type": "validation_failed",
            "message": "Validation failed",
            "details": [
                {"field": "idle_time_limit"},
                {"field": "", "message": ""}
            ]
        }"#
        .as_slice(),
    ] {
        assert_eq!(
            parse_error_message(body),
            Some("Validation failed".to_owned())
        );
    }
}

#[test]
fn formats_fieldless_validation_error_details() {
    let body = br#"{
        "type": "validation_failed",
        "message": "Validation failed",
        "details": [
            {"message": "recording metadata is invalid"},
            {"field": "", "message": "recording data is invalid"},
            {"field": "  ", "message": "recording options are invalid"},
            {"field": ".", "message": "recording is invalid"}
        ]
    }"#;

    assert_eq!(
        parse_error_message(body),
        Some(
            "Validation failed:\n  recording metadata is invalid\n  \
             recording data is invalid\n  recording options are invalid\n  recording is invalid"
                .to_owned()
        )
    );
}

#[test]
fn ignores_error_body_without_message() {
    assert_eq!(
        parse_error_message(br#"{"type":"upload_limit_reached"}"#),
        None
    );
    assert_eq!(parse_error_message(br#"{"message":""}"#), None);
}

#[test]
fn falls_back_to_status_error_for_invalid_or_empty_body() {
    assert_eq!(parse_error_message(b"not JSON"), None);
    assert_eq!(parse_error_message(b""), None);
}

#[test]
fn validation_message_ending_in_colon_keeps_one_colon() {
    let response = ErrorResponse {
        error_type: Some("validation_failed".to_owned()),
        message: Some("Invalid:".to_owned()),
        details: Some(vec![
            None,
            Some(ErrorDetail {
                field: Some(" title ".to_owned()),
                message: "is too long".to_owned(),
            }),
        ]),
    };

    assert_eq!(
        format_error_response(response),
        Some("Invalid:\n  title: is too long".to_owned())
    );
}

#[test]
fn recording_form_fields() {
    let fields = add_recording_changeset_fields(RecordingChangeset {
        title: Some(Some("Demo".to_owned())),
        description: Some(None),
        visibility: Some(Visibility::Unlisted),
        audio_url: None,
    });

    assert_eq!(
        fields,
        vec![
            ("title".to_owned(), "Demo".to_owned()),
            ("visibility".to_owned(), "unlisted".to_owned()),
        ]
    );
}

#[test]
fn auth_url_points_at_the_connect_page() {
    assert_eq!(
        get_auth_url("https://asciinema.org", "abc-123"),
        Some("https://asciinema.org/connect/abc-123".to_owned())
    );
    assert_eq!(
        get_auth_url("https://example.com/some/path?x=1", "id"),
        Some("https://example.com/connect/id?x=1".to_owned())
    );
    assert_eq!(get_auth_url("not a url", "id"), None);
}
