//! Where the patches for OLV are downloaded from, and where they are saved.
use vstd::prelude::*;
use vstd::string::StrSliceExecFns;
use vstd::string::StringExecFns;

verus! {

/// Where the downloaded certificate is saved on the SD card.
pub const CERT_PATH: &'static str = "sdmc:/3ds/fediiverse.pem";

/// The scheme that a setup host is served over.
pub open spec fn http_scheme() -> Seq<char> {
    seq!['h', 't', 't', 'p', ':', '/', '/']
}

/// The path of the CA certificate on the setup host.
pub open spec fn cert_path_on_host() -> Seq<char> {
    seq!['/', 'o', 'u', 't', '/', 'c', 'a', '_', 'c', 'e', 'r', 't', '.', 'p', 'e', 'm']
}

/// `host` without a leading `http://`, if it has one.
pub open spec fn strip_http(host: Seq<char>) -> Seq<char> {
    if host.len() >= 7 && host.subrange(0, 7) == http_scheme() {
        host.subrange(7, host.len() as int)
    } else {
        host
    }
}

/// The URL of the CA certificate on a setup host: `http://<host>/out/ca_cert.pem`,
/// where a leading `http://` of the host is not repeated.
pub open spec fn cert_url_of(host: Seq<char>) -> Seq<char> {
    http_scheme() + strip_http(host) + cert_path_on_host()
}

/// Whether `s` starts with `http://`.
fn starts_with_http(s: &str) -> (b: bool)
    ensures
        b == (s@.len() >= 7 && s@.subrange(0, 7) == http_scheme()),
{
    let scheme = "http://";
    proof {
        reveal_strlit("http://");
    }
    assert(scheme@ =~= http_scheme());
    let len = s.unicode_len();
    if len < 7 {
        return false;
    }
    let mut i: usize = 0;
    while i < 7
        invariant
            len == s@.len(),
            len >= 7,
            scheme@ == http_scheme(),
            i <= 7,
            forall|j: int| 0 <= j < i ==> s@[j] == http_scheme()[j],
        decreases 7 - i,
    {
        if s.get_char(i) != scheme.get_char(i) {
            assert(s@.subrange(0, 7)[i as int] != http_scheme()[i as int]);
            return false;
        }
        i = i + 1;
    }
    assert(s@.subrange(0, 7) =~= http_scheme());
    true
}

/// The URL the CA certificate is downloaded from: `http://<host>/out/ca_cert.pem`,
/// with a leading `http://` of `host` stripped first.
pub fn cert_url(host: &str) -> (url: String)
    ensures
        url@ == cert_url_of(host@),
{
    let stripped: &str = if starts_with_http(host) {
        let len = host.unicode_len();
        host.substring_char(7, len)
    } else {
        host
    };
    assert(stripped@ == strip_http(host@));
    let scheme = "http://";
    let path = "/out/ca_cert.pem";
    proof {
        reveal_strlit("http://");
        reveal_strlit("/out/ca_cert.pem");
    }
    assert(scheme@ =~= http_scheme());
    assert(path@ =~= cert_path_on_host());
    let mut url = String::from_str(scheme);
    url.append(stripped);
    url.append(path);
    url
}

/// The setup host may be given with or without `http://`: both name the same certificate.
pub proof fn law_scheme_is_optional(host: Seq<char>)
    requires
        !(host.len() >= 7 && host.subrange(0, 7) == http_scheme()),
    ensures
        cert_url_of(http_scheme() + host) == cert_url_of(host),
{
    let with = http_scheme() + host;
    assert(with.subrange(0, 7) =~= http_scheme());
    assert(with.subrange(7, with.len() as int) =~= host);
}

/// The host is kept verbatim: for a host that does not start with `http://`, the
/// certificate URL is `http://`, then every character of the host unchanged (a port,
/// a path, anything), then `/out/ca_cert.pem`; a host that starts with `http://`
/// gives the URL of the host after that prefix.
pub proof fn law_host_kept_verbatim(host: Seq<char>)
    ensures
        !(host.len() >= 7 && host.subrange(0, 7) =~= seq!['h', 't', 't', 'p', ':', '/', '/'])
            ==> cert_url_of(host) =~= seq!['h', 't', 't', 'p', ':', '/', '/'] + host + seq![
            '/',
            'o',
            'u',
            't',
            '/',
            'c',
            'a',
            '_',
            'c',
            'e',
            'r',
            't',
            '.',
            'p',
            'e',
            'm',
        ],
        host.len() >= 7 && host.subrange(0, 7) =~= seq!['h', 't', 't', 'p', ':', '/', '/']
            ==> cert_url_of(host) =~= host + seq![
            '/',
            'o',
            'u',
            't',
            '/',
            'c',
            'a',
            '_',
            'c',
            'e',
            'r',
            't',
            '.',
            'p',
            'e',
            'm',
        ],
        cert_url_of(host).len() == 7 + host.len() + 16 || cert_url_of(host).len() == host.len() + 16,
{
    if host.len() >= 7 && host.subrange(0, 7) =~= http_scheme() {
        assert(http_scheme() + host.subrange(7, host.len() as int) =~= host);
    }
}

/// Every certificate URL is an `http://` URL that ends in `/out/ca_cert.pem`.
pub proof fn law_cert_url_shape(host: Seq<char>)
    ensures
        cert_url_of(host).subrange(0, 7) == http_scheme(),
        cert_url_of(host).subrange(
            cert_url_of(host).len() - 16,
            cert_url_of(host).len() as int,
        ) == cert_path_on_host(),
{
    let u = cert_url_of(host);
    assert(u.subrange(0, 7) =~= http_scheme());
    assert(u.subrange(u.len() - 16, u.len() as int) =~= cert_path_on_host());
}

} // verus!
