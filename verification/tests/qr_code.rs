use fediiverse::{QrCode, QrCodeError};

#[test]
fn parses_host_and_token() {
    let code = QrCode::from_str("fediiverse;example.com;tok123").unwrap();
    assert_eq!(code.setup_host, "example.com");
    assert_eq!(code.token, "tok123");
}

#[test]
fn parse_through_from_str_trait() {
    let code: QrCode = "fediiverse;http://host:8080;abc".parse().unwrap();
    assert_eq!(code.setup_host, "http://host:8080");
    assert_eq!(code.token, "abc");
}

#[test]
fn extra_fields_are_ignored() {
    let code = QrCode::from_str("fediiverse;a;b;c;d").unwrap();
    assert_eq!(code.setup_host, "a");
    assert_eq!(code.token, "b");
}

#[test]
fn empty_fields_are_kept() {
    let code = QrCode::from_str("fediiverse;;").unwrap();
    assert_eq!(code.setup_host, "");
    assert_eq!(code.token, "");
}

#[test]
fn non_ascii_fields() {
    let code = QrCode::from_str("fediiverse;héllo.example;tökén✓").unwrap();
    assert_eq!(code.setup_host, "héllo.example");
    assert_eq!(code.token, "tökén✓");
}

#[test]
fn wrong_magic_is_refused() {
    assert_eq!(QrCode::from_str("fediverse;a;b").unwrap_err(), QrCodeError::MissingMagic);
    assert_eq!(QrCode::from_str("").unwrap_err(), QrCodeError::MissingMagic);
    assert_eq!(QrCode::from_str("fediiverse2;a;b").unwrap_err(), QrCodeError::MissingMagic);
    assert_eq!(QrCode::from_str(";fediiverse;a;b").unwrap_err(), QrCodeError::MissingMagic);
}

#[test]
fn missing_url_is_refused() {
    assert_eq!(QrCode::from_str("fediiverse").unwrap_err(), QrCodeError::NoUrl);
}

#[test]
fn missing_token_is_refused() {
    assert_eq!(QrCode::from_str("fediiverse;example.com").unwrap_err(), QrCodeError::NoToken);
    assert_eq!(QrCode::from_str("fediiverse;").unwrap_err(), QrCodeError::NoToken);
}

#[test]
fn error_messages() {
    assert_eq!(QrCodeError::MissingMagic.message(), "expected 'fediiverse' magic");
    assert_eq!(QrCodeError::NoUrl.message(), "no url");
    assert_eq!(QrCodeError::NoToken.message(), "no token");
}
