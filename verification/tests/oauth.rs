use spotr::oauth::{build_authorize_url, extract_code, CallbackListener, CALLBACK_STATUS};

fn code_of(query: &str) -> Option<Vec<u8>> {
    extract_code(&query.as_bytes().to_vec())
}

#[test]
fn the_code_parameter_is_extracted() {
    assert_eq!(code_of("code=abc"), Some(b"abc".to_vec()));
    assert_eq!(code_of("state=1&code=xyz&extra=2"), Some(b"xyz".to_vec()));
}

#[test]
fn other_parameters_are_ignored() {
    assert_eq!(code_of(""), None);
    assert_eq!(code_of("state=1&foo=bar"), None);
    // a key that merely starts with the word is not the code parameter
    assert_eq!(code_of("codex=1"), None);
    assert_eq!(code_of("code"), None);
}

#[test]
fn the_first_code_parameter_wins() {
    assert_eq!(code_of("code=first&code=second"), Some(b"first".to_vec()));
}

#[test]
fn the_value_is_percent_decoded() {
    assert_eq!(code_of("code=a%20b"), Some(b"a b".to_vec()));
    assert_eq!(code_of("code=a+b"), Some(b"a b".to_vec()));
    assert_eq!(code_of("code=%41%6a%6A"), Some(b"Ajj".to_vec()));
}

#[test]
fn an_invalid_escape_yields_no_code() {
    assert_eq!(code_of("code=%zz"), None);
    assert_eq!(code_of("code=abc%4"), None);
    assert_eq!(code_of("code=%"), None);
}

#[test]
fn an_empty_code_value_is_still_a_code() {
    assert_eq!(code_of("code="), Some(Vec::new()));
}

#[test]
fn the_authorize_url_is_assembled_exactly() {
    let url = build_authorize_url(&"deadbeef01".to_string());
    assert_eq!(
        url,
        "https://accounts.spotify.com/authorize?response_type=code&client_id=deadbeef01\
         &redirect_uri=http%3A%2F%2Flocalhost%3A9524\
         &scope=user-read-currently-playing%20user-modify-playback-state"
    );
}

#[test]
fn the_listener_captures_the_first_code_and_keeps_it() {
    let mut listener = CallbackListener::new();
    assert!(listener.code().is_none());

    // a request without a code leaves the listener waiting
    let status = listener.on_request(&b"state=1".to_vec());
    assert_eq!(status, CALLBACK_STATUS);
    assert!(listener.code().is_none());

    // the first request with a code fixes it
    let status = listener.on_request(&b"code=one".to_vec());
    assert_eq!(status, CALLBACK_STATUS);
    assert_eq!(listener.code(), Some(&b"one".to_vec()));

    // later requests are answered but change nothing
    let status = listener.on_request(&b"code=two".to_vec());
    assert_eq!(status, CALLBACK_STATUS);
    assert_eq!(listener.code(), Some(&b"one".to_vec()));
}

#[test]
fn every_request_gets_the_non_success_status() {
    let mut listener = CallbackListener::new();
    assert_eq!(listener.on_request(&Vec::new()), 404);
    assert_eq!(listener.on_request(&b"code=x".to_vec()), 404);
}
