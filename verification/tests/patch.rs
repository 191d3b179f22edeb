use fediiverse::olv::patch::{cert_url, CERT_PATH};

#[test]
fn url_from_bare_host() {
    assert_eq!(cert_url("example.com"), "http://example.com/out/ca_cert.pem");
}

#[test]
fn url_from_host_with_scheme() {
    assert_eq!(cert_url("http://example.com"), "http://example.com/out/ca_cert.pem");
    assert_eq!(cert_url("http://example.com"), cert_url("example.com"));
}

#[test]
fn scheme_is_stripped_once() {
    assert_eq!(cert_url("http://http://x"), "http://http://x/out/ca_cert.pem");
}

#[test]
fn other_schemes_are_kept() {
    assert_eq!(cert_url("https://x"), "http://https://x/out/ca_cert.pem");
    assert_eq!(cert_url("http:/x"), "http://http:/x/out/ca_cert.pem");
    assert_eq!(cert_url(""), "http:///out/ca_cert.pem");
    assert_eq!(cert_url("http://"), "http:///out/ca_cert.pem");
}

#[test]
fn certificate_path() {
    assert_eq!(CERT_PATH, "sdmc:/3ds/fediiverse.pem");
}
