//! The guards a fetched response must pass: a success status, an HTML
//! content type, and a body within the size cap.
use vstd::prelude::*;
use crate::text::{chars_of, string_of};
use vstd::utf8::encode_utf8;

verus! {

/// Largest body, in bytes, that a fetch accepts: 10 MiB.
pub const MAX_RESPONSE_SIZE: u64 = 10485760;

/// Why a fetch was refused.
pub enum FetchError {
    /// The status was not in 200..=299.
    HttpError(u16),
    /// The `Content-Type` header does not name `text/html`.
    InvalidContentType(String),
    /// The declared or actual body length, in bytes, is over the cap.
    TooLarge(u64),
    /// The transport failed; the message says how.
    RequestError(String),
}

impl FetchError {
    /// A one-line account of the error.
    pub fn message(&self) -> (r: String)
        ensures
            r@ == error_text(self@),
    {
        match self {
            FetchError::HttpError(code) => {
                let mut s = "HTTP error: ".to_owned();
                s.append(decimal_string(*code as u64).as_str());
                s
            },
            FetchError::InvalidContentType(ct) => {
                let mut s = "Invalid content type: ".to_owned();
                s.append(ct.as_str());
                s
            },
            FetchError::TooLarge(n) => {
                let mut s = "Response too large: ".to_owned();
                s.append(decimal_string(*n).as_str());
                s.append(" bytes");
                s
            },
            FetchError::RequestError(e) => {
                let mut s = "Request error: ".to_owned();
                s.append(e.as_str());
                s
            },
        }
    }
}

/// The text of an error, as `FetchError::message` gives it.
pub open spec fn error_text(k: FetchErrorKind) -> Seq<char> {
    match k {
        FetchErrorKind::Status(c) => "HTTP error: "@ + decimal(c as nat),
        FetchErrorKind::ContentType(ct) => "Invalid content type: "@ + ct,
        FetchErrorKind::Size(n) => "Response too large: "@ + decimal(n as nat) + " bytes"@,
        FetchErrorKind::Transport(e) => "Request error: "@ + e,
    }
}

/// The character of a decimal digit.
pub open spec fn digit_char(d: nat) -> char {
    if d == 0 {
        '0'
    } else if d == 1 {
        '1'
    } else if d == 2 {
        '2'
    } else if d == 3 {
        '3'
    } else if d == 4 {
        '4'
    } else if d == 5 {
        '5'
    } else if d == 6 {
        '6'
    } else if d == 7 {
        '7'
    } else if d == 8 {
        '8'
    } else {
        '9'
    }
}

/// `n` in decimal, without leading zeros.
pub open spec fn decimal(n: nat) -> Seq<char>
    decreases n,
{
    if n < 10 {
        seq![digit_char(n)]
    } else {
        decimal(n / 10).push(digit_char(n % 10))
    }
}

fn digit(d: u64) -> (r: char)
    requires
        d < 10,
    ensures
        r == digit_char(d as nat),
{
    if d == 0 {
        '0'
    } else if d == 1 {
        '1'
    } else if d == 2 {
        '2'
    } else if d == 3 {
        '3'
    } else if d == 4 {
        '4'
    } else if d == 5 {
        '5'
    } else if d == 6 {
        '6'
    } else if d == 7 {
        '7'
    } else if d == 8 {
        '8'
    } else {
        '9'
    }
}

fn decimal_digits(n: u64) -> (r: Vec<char>)
    ensures
        r@ == decimal(n as nat),
    decreases n,
{
    if n < 10 {
        let mut v: Vec<char> = Vec::new();
        v.push(digit(n));
        assert(v@ =~= seq![digit_char(n as nat)]);
        v
    } else {
        let mut v = decimal_digits(n / 10);
        v.push(digit(n % 10));
        v
    }
}

/// `n` written in decimal.
pub fn decimal_string(n: u64) -> (r: String)
    ensures
        r@ == decimal(n as nat),
{
    let v = decimal_digits(n);
    string_of(v.as_slice())
}

/// `needle` occurs somewhere in `hay`.
pub open spec fn contains_text(hay: Seq<char>, needle: Seq<char>) -> bool {
    exists|i: int| 0 <= i <= hay.len() - needle.len() && #[trigger] hay.subrange(i, i + needle.len()) == needle
}

/// Whether `needle` occurs in `hay`.
pub fn text_contains(hay: &str, needle: &str) -> (r: bool)
    ensures
        r == contains_text(hay@, needle@),
{
    let h = chars_of(hay);
    let n = chars_of(needle);
    if n.len() > h.len() {
        return false;
    }
    let hl = h.len();
    let last = hl - n.len();
    let mut i: usize = 0;
    loop
        invariant
            hl == h@.len(),
            last + n@.len() == h@.len(),
            i <= last,
            h@ == hay@,
            n@ == needle@,
            forall|k: int| 0 <= k < i ==> #[trigger] h@.subrange(k, k + n@.len()) != n@,
        decreases last - i,
    {
        let mut j: usize = 0;
        let mut same = true;
        while j < n.len()
            invariant
                hl == h@.len(),
                i <= last,
                last + n@.len() == h@.len(),
                j <= n@.len(),
                same == forall|m: int| 0 <= m < j ==> h@[i + m] == n@[m],
            decreases n@.len() - j,
        {
            if h[i + j] != n[j] {
                same = false;
            }
            j = j + 1;
        }
        if same {
            assert(h@.subrange(i as int, i + n@.len()) =~= n@);
            return true;
        }
        proof {
            let m = choose|m: int| 0 <= m < n@.len() && h@[i + m] != n@[m];
            assert(h@.subrange(i as int, i + n@.len())[m] != n@[m]);
        }
        if i == last {
            return false;
        }
        i = i + 1;
    }
}

/// What the status and headers of a response decide.
pub open spec fn response_verdict(
    status: u16,
    content_type: Option<Seq<char>>,
    content_length: Option<u64>,
) -> Option<FetchErrorKind> {
    if !(200 <= status <= 299) {
        Some(FetchErrorKind::Status(status))
    } else if content_type is Some && !contains_text(content_type->0, "text/html"@) {
        Some(FetchErrorKind::ContentType(content_type->0))
    } else if content_length is Some && content_length->0 > MAX_RESPONSE_SIZE {
        Some(FetchErrorKind::Size(content_length->0))
    } else {
        None
    }
}

/// `FetchError` as values of the logic.
pub enum FetchErrorKind {
    Status(u16),
    ContentType(Seq<char>),
    Size(u64),
    Transport(Seq<char>),
}

impl View for FetchError {
    type V = FetchErrorKind;

    open spec fn view(&self) -> FetchErrorKind {
        match self {
            FetchError::HttpError(c) => FetchErrorKind::Status(*c),
            FetchError::InvalidContentType(ct) => FetchErrorKind::ContentType(ct@),
            FetchError::TooLarge(n) => FetchErrorKind::Size(*n),
            FetchError::RequestError(e) => FetchErrorKind::Transport(e@),
        }
    }
}

/// Checks a response's status and headers before its body is read: the
/// status must be 2xx; a `Content-Type`, when present, must contain
/// `text/html`; a `Content-Length`, when present, must be within the cap.
pub fn check_response(status: u16, content_type: Option<&str>, content_length: Option<u64>) -> (r:
    Result<(), FetchError>)
    ensures
        match response_verdict(
            status,
            match content_type {
                Some(c) => Some(c@),
                None => None,
            },
            content_length,
        ) {
            None => r is Ok,
            Some(k) => r is Err && r->Err_0@ == k,
        },
{
    if status < 200 || status > 299 {
        return Err(FetchError::HttpError(status));
    }
    if let Some(ct) = content_type {
        if !text_contains(ct, "text/html") {
            return Err(FetchError::InvalidContentType(ct.to_owned()));
        }
    }
    if let Some(n) = content_length {
        if n > MAX_RESPONSE_SIZE {
            return Err(FetchError::TooLarge(n));
        }
    }
    Ok(())
}

/// The length of a text in UTF-8 bytes, as `str::len` gives it.
pub open spec fn byte_len(s: Seq<char>) -> usize {
    encode_utf8(s).len() as usize
}

/// Checks the body once read: it is accepted when its UTF-8 length is within
/// the cap, refused as too large otherwise.
pub fn check_body(body: String) -> (r: Result<String, FetchError>)
    ensures
        byte_len(body@) <= MAX_RESPONSE_SIZE ==> r is Ok && r->Ok_0 == body,
        byte_len(body@) > MAX_RESPONSE_SIZE ==> r is Err && r->Err_0@ == FetchErrorKind::Size(
            byte_len(body@) as u64,
        ),
{
    let n = body.as_str().len();
    if n as u64 > MAX_RESPONSE_SIZE {
        return Err(FetchError::TooLarge(n as u64));
    }
    Ok(body)
}

} // verus!
