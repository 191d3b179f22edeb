//! The payload of the setup QR code: `fediiverse;<setup host>;<token>`.
use vstd::prelude::*;

verus! {

/// Why a scanned text is not a setup code.
#[derive(Debug, Clone, Copy, PartialEq, Eq, Structural)]
pub enum QrCodeError {
    /// The first `;`-separated field is not `fediiverse`.
    MissingMagic,
    /// There is no second field (the setup host).
    NoUrl,
    /// There is no third field (the token).
    NoToken,
}

impl QrCodeError {
    /// The human-readable message for this error.
    pub fn message(&self) -> (res: &'static str)
        ensures
            *self == QrCodeError::MissingMagic ==> res@ == "expected 'fediiverse' magic"@,
            *self == QrCodeError::NoUrl ==> res@ == "no url"@,
            *self == QrCodeError::NoToken ==> res@ == "no token"@,
    {
        match self {
            QrCodeError::MissingMagic => "expected 'fediiverse' magic",
            QrCodeError::NoUrl => "no url",
            QrCodeError::NoToken => "no token",
        }
    }
}

/// fediiverse;<setup host>;<token>
#[derive(Debug)]
pub struct QrCode {
    pub setup_host: String,
    pub token: String,
}

impl View for QrCode {
    type V = (Seq<char>, Seq<char>);

    open spec fn view(&self) -> (Seq<char>, Seq<char>) {
        (self.setup_host@, self.token@)
    }
}

/// The field separator of a setup code.
pub open spec fn is_sep(c: char) -> bool {
    c == ';'
}

/// No separator occurs in `s[lo..hi)`.
pub open spec fn no_sep(s: Seq<char>, lo: int, hi: int) -> bool {
    forall|j: int| lo <= j < hi ==> !is_sep(#[trigger] s[j])
}

/// `i` is the position of the first separator of `s`.
pub open spec fn is_first_sep(s: Seq<char>, i: int) -> bool {
    0 <= i < s.len() && is_sep(s[i]) && no_sep(s, 0, i)
}

/// Where the first field of `s` ends: the first separator, or the end of `s`.
pub open spec fn field_end(s: Seq<char>) -> int {
    if exists|i: int| is_first_sep(s, i) {
        choose|i: int| is_first_sep(s, i)
    } else {
        s.len() as int
    }
}

/// The first field of `s` (what `s.split(';').next()` yields).
pub open spec fn first_field(s: Seq<char>) -> Seq<char> {
    s.subrange(0, field_end(s))
}

/// Whether `s` holds a separator, so that splitting yields a further field.
pub open spec fn has_more(s: Seq<char>) -> bool {
    field_end(s) < s.len()
}

/// What follows the first separator of `s`.
pub open spec fn after_first(s: Seq<char>) -> Seq<char> {
    s.subrange(field_end(s) + 1, s.len() as int)
}

/// The magic first field of a setup code.
pub open spec fn magic() -> Seq<char> {
    seq!['f', 'e', 'd', 'i', 'i', 'v', 'e', 'r', 's', 'e']
}

/// The outcome of parsing `s` as a setup code: the setup host and the token, or the error.
/// Fields after the third are ignored.
pub open spec fn parse_qr_code(s: Seq<char>) -> Result<(Seq<char>, Seq<char>), QrCodeError> {
    if first_field(s) != magic() {
        Err(QrCodeError::MissingMagic)
    } else if !has_more(s) {
        Err(QrCodeError::NoUrl)
    } else if !has_more(after_first(s)) {
        Err(QrCodeError::NoToken)
    } else {
        Ok((first_field(after_first(s)), first_field(after_first(after_first(s)))))
    }
}

/// A position that ends the first field is the one `field_end` names.
pub proof fn lemma_field_end(s: Seq<char>, i: int)
    requires
        0 <= i <= s.len(),
        no_sep(s, 0, i),
        i < s.len() ==> is_sep(s[i]),
    ensures
        field_end(s) == i,
{
    if i < s.len() {
        assert(is_first_sep(s, i));
        let k = choose|k: int| is_first_sep(s, k);
        if k < i {
            assert(!is_sep(s[k]));
        } else if k > i {
            assert(!is_sep(s[i]));
        }
    } else {
        assert forall|k: int| !is_first_sep(s, k) by {
            if 0 <= k < s.len() {
                assert(!is_sep(s[k]));
            }
        }
    }
}

/// A setup code written out from a host and a token that hold no `;` reads back
/// as that host and token, whatever further `;`-separated fields follow.
pub proof fn law_setup_code_round_trip(host: Seq<char>, token: Seq<char>, rest: Seq<char>)
    requires
        no_sep(host, 0, host.len() as int),
        no_sep(token, 0, token.len() as int),
        rest.len() == 0 || is_sep(rest[0]),
    ensures
        parse_qr_code(magic() + seq![';'] + host + seq![';'] + token + rest) == Ok::<
            (Seq<char>, Seq<char>),
            QrCodeError,
        >((host, token)),
{
    let s = magic() + seq![';'] + host + seq![';'] + token + rest;
    assert forall|j: int| 0 <= j < 10 implies !is_sep(#[trigger] s[j]) by {
        assert(s[j] == magic()[j]);
    }
    lemma_field_end(s, 10);
    assert(first_field(s) =~= magic());
    let r1 = after_first(s);
    assert(r1 =~= host + seq![';'] + token + rest);
    assert forall|j: int| 0 <= j < host.len() implies !is_sep(#[trigger] r1[j]) by {
        assert(r1[j] == host[j]);
    }
    lemma_field_end(r1, host.len() as int);
    assert(first_field(r1) =~= host);
    let r2 = after_first(r1);
    assert(r2 =~= token + rest);
    assert forall|j: int| 0 <= j < token.len() implies !is_sep(#[trigger] r2[j]) by {
        assert(r2[j] == token[j]);
    }
    lemma_field_end(r2, token.len() as int);
    assert(first_field(r2) =~= token);
}

/// A text parses only if it starts with exactly `fediiverse;`: the characters
/// before its first `;` spell `fediiverse`, and that `;` is there.
pub proof fn law_parse_needs_magic(s: Seq<char>)
    ensures
        parse_qr_code(s) is Ok ==> s.len() >= 11 && s.subrange(0, 11) =~= seq![
            'f',
            'e',
            'd',
            'i',
            'i',
            'v',
            'e',
            'r',
            's',
            'e',
            ';',
        ],
{
    if parse_qr_code(s) is Ok {
        lemma_field_end_facts(s);
        assert(first_field(s) == magic());
        assert(first_field(s).len() == magic().len());
        assert(field_end(s) == 10);
        assert(s.subrange(0, 10) == magic());
        assert forall|j: int| 0 <= j < 11 implies s.subrange(0, 11)[j] == seq![
            'f',
            'e',
            'd',
            'i',
            'i',
            'v',
            'e',
            'r',
            's',
            'e',
            ';',
        ][j] by {
            if j < 10 {
                assert(s.subrange(0, 10)[j] == magic()[j]);
            }
        }
    }
}

/// Any text whose first `;`-separated field is not exactly `fediiverse` is refused
/// with `MissingMagic`, whatever follows.
pub proof fn law_other_codes_refused(s: Seq<char>)
    ensures
        !(s.len() >= 10 && s.subrange(0, 10) =~= seq![
            'f',
            'e',
            'd',
            'i',
            'i',
            'v',
            'e',
            'r',
            's',
            'e',
        ] && (s.len() == 10 || s[10] == ';')) ==> parse_qr_code(s) == Err::<
            (Seq<char>, Seq<char>),
            QrCodeError,
        >(QrCodeError::MissingMagic),
{
    lemma_field_end_facts(s);
    if first_field(s) == magic() {
        assert(first_field(s).len() == magic().len());
        assert(field_end(s) == 10);
        assert(s.subrange(0, 10) =~= magic());
    }
}

/// `field_end` is the first separator, or the end when there is none.
proof fn lemma_field_end_facts(s: Seq<char>)
    ensures
        0 <= field_end(s) <= s.len(),
        no_sep(s, 0, field_end(s)),
        field_end(s) < s.len() ==> is_sep(s[field_end(s)]),
{
    if exists|i: int| is_first_sep(s, i) {
        let i = choose|i: int| is_first_sep(s, i);
        assert(is_first_sep(s, i));
    } else {
        assert forall|j: int| 0 <= j < s.len() implies !is_sep(#[trigger] s[j]) by {
            if is_sep(s[j]) {
                lemma_first_sep_exists(s, j);
            }
        }
    }
}

/// A separator at `j` means there is a first one.
proof fn lemma_first_sep_exists(s: Seq<char>, j: int)
    requires
        0 <= j < s.len(),
        is_sep(s[j]),
    ensures
        exists|i: int| is_first_sep(s, i),
    decreases j,
{
    if no_sep(s, 0, j) {
        assert(is_first_sep(s, j));
    } else {
        let k = choose|k: int| 0 <= k < j && is_sep(#[trigger] s[k]);
        lemma_first_sep_exists(s, k);
    }
}

/// The index of the first separator in `s[from..len)`, or `len` when there is none.
fn find_sep(s: &str, from: usize, len: usize) -> (r: usize)
    requires
        len == s@.len(),
        from <= len,
    ensures
        from <= r <= len,
        no_sep(s@, from as int, r as int),
        r < len ==> is_sep(s@[r as int]),
{
    let mut i = from;
    while i < len
        invariant
            len == s@.len(),
            from <= i <= len,
            no_sep(s@, from as int, i as int),
        decreases len - i,
    {
        if s.get_char(i) == ';' {
            return i;
        }
        i = i + 1;
    }
    i
}

/// The field `s[from..end)` as its own sequence ends where `field_end` says.
proof fn lemma_field_of_suffix(s: Seq<char>, from: int, end: int)
    requires
        0 <= from <= end <= s.len(),
        no_sep(s, from, end),
        end < s.len() ==> is_sep(s[end]),
    ensures
        field_end(s.subrange(from, s.len() as int)) == end - from,
{
    let t = s.subrange(from, s.len() as int);
    assert forall|j: int| 0 <= j < end - from implies !is_sep(#[trigger] t[j]) by {
        assert(t[j] == s[from + j]);
    }
    lemma_field_end(t, end - from);
}

/// Whether `s[0..end)` spells the magic field.
fn is_magic(s: &str, end: usize) -> (b: bool)
    requires
        end <= s@.len(),
    ensures
        b == (s@.subrange(0, end as int) == magic()),
{
    let m = "fediiverse";
    proof {
        reveal_strlit("fediiverse");
    }
    assert(m@ == magic());
    if end != 10 {
        return false;
    }
    let mut i: usize = 0;
    while i < 10
        invariant
            end == 10,
            end <= s@.len(),
            m@ == magic(),
            i <= 10,
            forall|j: int| 0 <= j < i ==> s@[j] == magic()[j],
        decreases 10 - i,
    {
        if s.get_char(i) != m.get_char(i) {
            assert(s@.subrange(0, 10)[i as int] != magic()[i as int]);
            return false;
        }
        i = i + 1;
    }
    assert(s@.subrange(0, 10) =~= magic());
    true
}

impl QrCode {
    /// Parses `fediiverse;<setup host>;<token>`: the fields are split at each `;`,
    /// the first must be `fediiverse`, the next two are the setup host and the token,
    /// and anything after a third `;` is ignored.
    pub fn from_str(s: &str) -> (res: Result<QrCode, QrCodeError>)
        ensures
            match (res, parse_qr_code(s@)) {
                (Ok(code), Ok((host, token))) => code.setup_host@ == host && code.token@ == token,
                (Err(e), Err(f)) => e == f,
                _ => false,
            },
    {
        let len = s.unicode_len();
        let e0 = find_sep(s, 0, len);
        proof {
            lemma_field_of_suffix(s@, 0, e0 as int);
            assert(s@.subrange(0, s@.len() as int) =~= s@);
        }
        if !is_magic(s, e0) {
            return Err(QrCodeError::MissingMagic);
        }
        if e0 == len {
            return Err(QrCodeError::NoUrl);
        }
        let ghost r1 = after_first(s@);
        let e1 = find_sep(s, e0 + 1, len);
        proof {
            lemma_field_of_suffix(s@, e0 + 1, e1 as int);
        }
        if e1 == len {
            return Err(QrCodeError::NoToken);
        }
        let ghost r2 = after_first(r1);
        let e2 = find_sep(s, e1 + 1, len);
        proof {
            lemma_field_of_suffix(s@, e1 + 1, e2 as int);
            assert(r1.subrange(e1 - e0, r1.len() as int) =~= s@.subrange(e1 + 1, len as int));
            assert(r1.subrange(0, e1 - e0 - 1) =~= s@.subrange(e0 + 1, e1 as int));
            assert(r2.subrange(0, e2 - e1 - 1) =~= s@.subrange(e1 + 1, e2 as int));
        }
        let host = String::from_str(s.substring_char(e0 + 1, e1));
        let token = String::from_str(s.substring_char(e1 + 1, e2));
        Ok(QrCode { setup_host: host, token })
    }
}

impl core::str::FromStr for QrCode {
    type Err = QrCodeError;

    /// Same as the inherent `QrCode::from_str`, so that `s.parse::<QrCode>()` works.
    fn from_str(s: &str) -> (res: Result<QrCode, QrCodeError>)
        ensures
            match (res, parse_qr_code(s@)) {
                (Ok(code), Ok((host, token))) => code.setup_host@ == host && code.token@ == token,
                (Err(e), Err(f)) => e == f,
                _ => false,
            },
    {
        QrCode::from_str(s)
    }
}

} // verus!
