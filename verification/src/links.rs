//! Which URLs are accepted.
use vstd::prelude::*;
use vstd::utf8::encode_utf8;

use crate::boundary;
use crate::bytes;
use crate::text;

verus! {

/// The longest accepted URL, in bytes.
pub const MAX_URL_LEN: usize = 2048;

/// The parts of a parsed URL.
pub struct UrlParts {
    pub scheme: String,
    pub host: Option<String>,
    /// The port it names, or the one that its scheme implies.
    pub port: Option<u16>,
    pub username: String,
    pub password: Option<String>,
    pub path: String,
    pub query: Option<String>,
    pub fragment: Option<String>,
}

pub struct UrlPartsView {
    pub scheme: Seq<char>,
    pub host: Option<Seq<char>>,
    pub port: Option<u16>,
    pub username: Seq<char>,
    pub password: Option<Seq<char>>,
    pub path: Seq<char>,
    pub query: Option<Seq<char>>,
    pub fragment: Option<Seq<char>>,
}

impl View for UrlParts {
    type V = UrlPartsView;

    open spec fn view(&self) -> UrlPartsView {
        UrlPartsView {
            scheme: self.scheme@,
            host: text::optional(self.host),
            port: self.port,
            username: self.username@,
            password: text::optional(self.password),
            path: self.path@,
            query: text::optional(self.query),
            fragment: text::optional(self.fragment),
        }
    }
}

pub open spec fn is_printable(b: u8) -> bool {
    0x21 <= b <= 0x7e
}

pub open spec fn all_printable(s: Seq<u8>) -> bool {
    forall|i: int| 0 <= i < s.len() ==> is_printable(#[trigger] s[i])
}

/// Where the authority begins in a URL with one of the two schemes.
pub open spec fn authority_start(s: Seq<u8>) -> int {
    if bytes::starts_with(s, encode_utf8("http://"@)) {
        encode_utf8("http://"@).len() as int
    } else {
        encode_utf8("https://"@).len() as int
    }
}

/// Whether nothing stands between `://` and the first of `/`, `?`, `#` or the
/// end.
pub open spec fn authority_is_empty(s: Seq<u8>) -> bool {
    let at = authority_start(s);
    at >= s.len() || s[at] == 47 || s[at] == 63 || s[at] == 35
}

/// What is wrong with the bytes of a URL.
pub open spec fn text_problem(url: Seq<char>) -> Option<Seq<char>> {
    let s = encode_utf8(url);
    if s.len() > MAX_URL_LEN || !all_printable(s) {
        Some("url must contain 1..2048 printable ASCII bytes"@)
    } else if !bytes::starts_with(s, encode_utf8("http://"@)) && !bytes::starts_with(
        s,
        encode_utf8("https://"@),
    ) {
        Some("url must start with http:// or https://"@)
    } else {
        None
    }
}

/// What is wrong with a URL of good bytes, given its parts.
pub open spec fn parts_problem(url: Seq<char>, parts: Option<UrlPartsView>) -> Option<Seq<char>> {
    match parts {
        None => Some("invalid URL"@),
        Some(p) => if p.host is None || p.username.len() > 0 || p.password is Some || encode_utf8(
            url,
        ).contains(92u8) {
            Some("url requires a host and must not contain credentials or backslashes"@)
        } else if authority_is_empty(encode_utf8(url)) {
            Some("url requires a host"@)
        } else {
            None
        },
    }
}

/// Why a URL is refused; `None` if it is accepted.
pub open spec fn url_problem(url: Seq<char>) -> Option<Seq<char>> {
    match text_problem(url) {
        Some(message) => Some(message),
        None => parts_problem(url, boundary::url_parts(url)),
    }
}

pub open spec fn valid_url(url: Seq<char>) -> bool {
    url_problem(url) is None
}

fn printable(s: &[u8]) -> (res: bool)
    ensures
        res == all_printable(s@),
{
    let mut i: usize = 0;
    while i < s.len()
        invariant
            i <= s.len(),
            forall|j: int| 0 <= j < i ==> is_printable(#[trigger] s@[j]),
        decreases s.len() - i,
    {
        if s[i] < 0x21 || s[i] > 0x7e {
            assert(!is_printable(s@[i as int]));
            return false;
        }
        i += 1;
    }
    true
}

/// Checks the bytes of a URL.
pub fn check_text(url: &str) -> (res: Result<(), &'static str>)
    ensures
        match res {
            Ok(_) => text_problem(url@) is None,
            Err(message) => text_problem(url@) == Some(message@),
        },
{
    let s = url.as_bytes();
    if s.len() > MAX_URL_LEN || !printable(s) {
        return Err("url must contain 1..2048 printable ASCII bytes");
    }
    if !bytes::has_prefix(s, "http://".as_bytes()) && !bytes::has_prefix(
        s,
        "https://".as_bytes(),
    ) {
        return Err("url must start with http:// or https://");
    }
    Ok(())
}

/// Checks a URL whose bytes are good, given its parts (`None`: it has none).
pub fn check_parts(url: &str, parts: Option<&UrlParts>) -> (res: Result<(), &'static str>)
    ensures
        match res {
            Ok(_) => parts_problem(
                url@,
                match parts {
                    Some(p) => Some(p@),
                    None => None,
                },
            ) is None,
            Err(message) => parts_problem(
                url@,
                match parts {
                    Some(p) => Some(p@),
                    None => None,
                },
            ) == Some(message@),
        },
{
    let s = url.as_bytes();
    match parts {
        None => Err("invalid URL"),
        Some(p) => {
            let backslash = bytes::index_of(s, 92);
            proof {
                bytes::lemma_span_to(s@, 92);
                if s@.contains(92u8) {
                    let i = choose|i: int| 0 <= i < s@.len() && s@[i] == 92u8;
                    assert(backslash <= i);
                }
            }
            if p.host.is_none() || !p.username.as_str().is_empty() || p.password.is_some()
                || backslash < s.len() {
                return Err(
                    "url requires a host and must not contain credentials or backslashes",
                );
            }
            let http = "http://".as_bytes();
            let at: usize = if bytes::has_prefix(s, http) {
                http.len()
            } else {
                "https://".as_bytes().len()
            };
            if at >= s.len() || s[at] == 47 || s[at] == 63 || s[at] == 35 {
                return Err("url requires a host");
            }
            Ok(())
        },
    }
}

/// Accepts a URL or says why not.
pub fn validate_url(url: &str) -> (res: Result<(), &'static str>)
    ensures
        match res {
            Ok(_) => url_problem(url@) is None,
            Err(message) => url_problem(url@) == Some(message@),
        },
{
    match check_text(url) {
        Err(message) => Err(message),
        Ok(_) => match boundary::parse_url(url) {
            Err(_) => check_parts(url, None),
            Ok(parts) => check_parts(url, Some(&parts)),
        },
    }
}

/// An accepted URL is short, printable ASCII.
pub proof fn law_valid_url_is_printable(url: Seq<char>)
    requires
        valid_url(url),
    ensures
        0 < encode_utf8(url).len() <= MAX_URL_LEN,
        all_printable(encode_utf8(url)),
{
    reveal_strlit("http://");
    reveal_strlit("https://");
    vstd::utf8::is_ascii_chars_encode_utf8("http://"@);
    vstd::utf8::is_ascii_chars_encode_utf8("https://"@);
}

/// A URL is accepted exactly if it has at most 2048 bytes of printable ASCII,
/// begins with `http://` or `https://` and something behind that which is not
/// `/`, `?` or `#`, holds no backslash, and parses to one with a host and
/// without credentials.
pub proof fn law_accepted_urls(url: Seq<char>)
    ensures
        valid_url(url) <==> {
            let s = encode_utf8(url);
            let http = "http://"@;
            let https = "https://"@;
            &&& s.len() <= 2048
            &&& forall|i: int| 0 <= i < s.len() ==> 33 <= #[trigger] s[i] <= 126 && s[i] != 92
            &&& {
                ||| s.len() > 7 && s.take(7) == encode_utf8(http) && s[7] != 47 && s[7] != 63
                    && s[7] != 35
                ||| s.len() > 8 && s.take(8) == encode_utf8(https) && s[8] != 47 && s[8] != 63
                    && s[8] != 35
            }
            &&& boundary::url_parts(url) matches Some(p)
            &&& p.host is Some
            &&& p.username.len() == 0
            &&& p.password is None
        },
{
    let s = encode_utf8(url);
    reveal_strlit("http://");
    reveal_strlit("https://");
    vstd::utf8::is_ascii_chars_encode_utf8("http://"@);
    vstd::utf8::is_ascii_chars_encode_utf8("https://"@);
    let http = encode_utf8("http://"@);
    let https = encode_utf8("https://"@);
    assert(http[4] == 58 && https[4] == 115);
    if s.len() >= 8 {
        assert(s.take(7)[4] == s[4]);
        assert(s.take(8)[4] == s[4]);
    }
    if valid_url(url) {
        assert forall|i: int| 0 <= i < s.len() implies 33 <= #[trigger] s[i] <= 126 && s[i]
            != 92 by {
            assert(is_printable(s[i]));
            assert(s.contains(s[i]));
        }
    }
    if forall|i: int| 0 <= i < s.len() ==> 33 <= #[trigger] s[i] <= 126 && s[i] != 92 {
        assert forall|i: int| 0 <= i < s.len() implies is_printable(#[trigger] s[i]) by {}
    }
}

/// A refused URL is refused for the first of these reasons that holds: its
/// bytes, its beginning, its parse, its host, credentials or backslashes, and
/// an empty authority.
pub proof fn law_refused_urls(url: Seq<char>, parts: Option<UrlPartsView>)
    ensures
        ({
            let s = encode_utf8(url);
            let plain = s.len() <= 2048 && forall|i: int|
                0 <= i < s.len() ==> 33 <= #[trigger] s[i] <= 126;
            let begins = (s.len() >= 7 && s.take(7) == encode_utf8("http://"@)) || (s.len() >= 8
                && s.take(8) == encode_utf8("https://"@));
            &&& !plain <==> text_problem(url) == Some(
                "url must contain 1..2048 printable ASCII bytes"@,
            )
            &&& plain && !begins ==> text_problem(url) == Some(
                "url must start with http:// or https://"@,
            )
            &&& plain && begins <==> text_problem(url) is None
            &&& parts is None ==> parts_problem(url, parts) == Some("invalid URL"@)
            &&& parts matches Some(p) ==> {
                let open = p.host is Some && p.username.len() == 0 && p.password is None && forall|
                    i: int,
                |
                    0 <= i < s.len() ==> #[trigger] s[i] != 92;
                &&& !open ==> parts_problem(url, parts) == Some(
                    "url requires a host and must not contain credentials or backslashes"@,
                )
                &&& open && parts_problem(url, parts) is Some ==> parts_problem(url, parts) == Some(
                    "url requires a host"@,
                )
            }
            &&& url_problem(url) == match text_problem(url) {
                Some(reason) => Some(reason),
                None => parts_problem(url, boundary::url_parts(url)),
            }
        }),
{
    let s = encode_utf8(url);
    reveal_strlit("http://");
    reveal_strlit("https://");
    reveal_strlit("url must contain 1..2048 printable ASCII bytes");
    reveal_strlit("url must start with http:// or https://");
    vstd::utf8::is_ascii_chars_encode_utf8("http://"@);
    vstd::utf8::is_ascii_chars_encode_utf8("https://"@);
    assert("url must contain 1..2048 printable ASCII bytes"@[4] == 'm');
    assert("url must contain 1..2048 printable ASCII bytes"@[9] == 'c');
    assert("url must start with http:// or https://"@[9] == 's');
    assert(all_printable(s) <==> forall|i: int| 0 <= i < s.len() ==> 33 <= #[trigger] s[i] <= 126) by {
        if forall|i: int| 0 <= i < s.len() ==> 33 <= #[trigger] s[i] <= 126 {
            assert forall|i: int| 0 <= i < s.len() implies is_printable(#[trigger] s[i]) by {}
        }
        if all_printable(s) {
            assert forall|i: int| 0 <= i < s.len() implies 33 <= #[trigger] s[i] <= 126 by {
                assert(is_printable(s[i]));
            }
        }
    }
    assert(s.contains(92u8) <==> exists|i: int| 0 <= i < s.len() && #[trigger] s[i] == 92);
}

/// A URL with parts is accepted exactly if it has a host, no credentials and no
/// backslash, and its authority begins with something else than `/`, `?` or `#`:
/// at the eighth byte behind `http://`, and else at the ninth.
pub proof fn law_accepted_parts(url: Seq<char>, p: UrlPartsView)
    ensures
        ({
            let s = encode_utf8(url);
            let at: int = if s.len() >= 7 && s.take(7) == encode_utf8("http://"@) {
                7
            } else {
                8
            };
            parts_problem(url, Some(p)) is None <==> {
                &&& p.host is Some
                &&& p.username.len() == 0
                &&& p.password is None
                &&& !s.contains(92u8)
                &&& at < s.len()
                &&& s[at] != 47
                &&& s[at] != 63
                &&& s[at] != 35
            }
        }),
{
    reveal_strlit("http://");
    reveal_strlit("https://");
    vstd::utf8::is_ascii_chars_encode_utf8("http://"@);
    vstd::utf8::is_ascii_chars_encode_utf8("https://"@);
}

} // verus!
