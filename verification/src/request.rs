use vstd::prelude::*;
use vstd::utf8::encode_utf8;

use crate::config::LoadTestConfig;
use crate::data::DataRow;
use crate::template::{replace_placeholders, substitute_all};
use crate::config::HttpMethod;

verus! {

/// A byte the HTTP client accepts inside a header name: the HTTP token
/// characters, that is ASCII letters and digits and the fifteen specials
/// `! # $ % & ' * + - . ^ _ ` | ~`.
pub open spec fn name_byte_ok(b: u8) -> bool {
    ||| 48 <= b <= 57
    ||| 65 <= b <= 90
    ||| 97 <= b <= 122
    ||| b == 33 || b == 35 || b == 36 || b == 37 || b == 38 || b == 39
    ||| b == 42 || b == 43 || b == 45 || b == 46
    ||| b == 94 || b == 95 || b == 96 || b == 124 || b == 126
}

/// Whether the HTTP client accepts a string as a header name: it is
/// non-empty, at most 65535 bytes long, and every byte of its UTF-8
/// encoding is a token character (upper-case letters are accepted and
/// lowered by the client).
pub open spec fn header_name_ok(s: Seq<char>) -> bool {
    &&& 1 <= encode_utf8(s).len() <= 65535
    &&& forall|i: int| 0 <= i < encode_utf8(s).len() ==> name_byte_ok(#[trigger] encode_utf8(s)[i])
}

/// A byte the HTTP client accepts inside a header value: every byte from 32
/// up except DEL (127), plus horizontal tab.
pub open spec fn value_byte_ok(b: u8) -> bool {
    (32 <= b && b != 127) || b == 9
}

/// Whether the HTTP client accepts a string as a header value: every byte
/// of its UTF-8 encoding is a permitted value byte.
pub open spec fn header_value_ok(s: Seq<char>) -> bool {
    forall|i: int| 0 <= i < encode_utf8(s).len() ==> value_byte_ok(#[trigger] encode_utf8(s)[i])
}

/// Relies on reqwest::header::HeaderName::from_bytes: it accepts exactly
/// the non-empty names of at most 65535 bytes whose every byte is an HTTP
/// token character, lowering upper-case letters, with no other effect.
#[verifier::external_body]
fn is_valid_header_name(name: &str) -> (r: bool)
    ensures
        r == header_name_ok(name@),
{
    reqwest::header::HeaderName::from_bytes(name.as_bytes()).is_ok()
}

/// Relies on reqwest::header::HeaderValue::from_str: it accepts the string
/// exactly when every byte is 32 or above and not 127, or is a tab, with no
/// other effect.
#[verifier::external_body]
fn is_valid_header_value(value: &str) -> (r: bool)
    ensures
        r == header_value_ok(value@),
{
    reqwest::header::HeaderValue::from_str(value).is_ok()
}

/// Every configured header pair is acceptable to the HTTP client.
pub open spec fn config_headers_ok(c: LoadTestConfig) -> bool {
    forall|i: int|
        0 <= i < c.headers_seq().len() ==> header_name_ok(#[trigger] c.headers_seq()[i].0@)
            && header_value_ok(c.headers_seq()[i].1@)
}

/// The error of building one request: a configured header name or value was
/// rejected. It aborts only the one request it belongs to.
#[derive(Clone, Copy, Debug, PartialEq, Eq, Structural)]
pub enum BuildError {
    InvalidHeader,
}

/// One fully constructed outbound request: everything the network boundary
/// needs, with substitution already applied to the body.
pub struct RequestDescriptor {
    pub method: HttpMethod,
    pub url: String,
    pub headers: Vec<(String, String)>,
    pub body: Option<String>,
}

/// Build the request a worker sends: the configured method (GET when none
/// is set), the target URL, the validated headers, and the body with the
/// worker's row substituted in when both are present. Fails exactly when a
/// configured header is invalid; no network work is done here.
pub fn build_request(config: &LoadTestConfig, row: Option<&DataRow>) -> (r: Result<
    RequestDescriptor,
    BuildError,
>)
    ensures
        r is Ok <==> config_headers_ok(*config),
        r is Err ==> r == Err::<RequestDescriptor, BuildError>(BuildError::InvalidHeader),
        r matches Ok(d) ==> {
            &&& d.method == config.spec_method()
            &&& d.url@ == config.url@
            &&& d.headers@.len() == config.headers_seq().len()
            &&& forall|i: int|
                0 <= i < d.headers@.len() ==> d.headers@[i].0@ == (
                #[trigger] config.headers_seq()[i]).0@ && d.headers@[i].1@
                    == config.headers_seq()[i].1@
            &&& match config.body {
                Option::None => d.body is None,
                Option::Some(b) => d.body matches Some(bd) && bd@ == (match row {
                    Option::Some(rw) => substitute_all(b@, rw.pairs_view()),
                    Option::None => b@,
                }),
            }
        },
{
    let mut hdrs: Vec<(String, String)> = Vec::new();
    match &config.headers {
        Some(pairs) => {
            let n = pairs.len();
            let mut i: usize = 0;
            while i < n
                invariant
                    i <= n,
                    n == pairs@.len(),
                    config.headers == Some(*pairs),
                    hdrs@.len() == i,
                    forall|j: int|
                        0 <= j < i ==> header_name_ok((#[trigger] pairs@[j]).0@)
                            && header_value_ok(pairs@[j].1@),
                    forall|j: int|
                        0 <= j < i ==> (#[trigger] hdrs@[j]).0@ == pairs@[j].0@ && hdrs@[j].1@
                            == pairs@[j].1@,
                decreases n - i,
            {
                let name = &pairs[i].0;
                let value = &pairs[i].1;
                if !is_valid_header_name(name.as_str()) {
                    proof {
                        assert(!(header_name_ok(config.headers_seq()[i as int].0@)
                            && header_value_ok(config.headers_seq()[i as int].1@)));
                    }
                    return Err(BuildError::InvalidHeader);
                }
                if !is_valid_header_value(value.as_str()) {
                    proof {
                        assert(!(header_name_ok(config.headers_seq()[i as int].0@)
                            && header_value_ok(config.headers_seq()[i as int].1@)));
                    }
                    return Err(BuildError::InvalidHeader);
                }
                proof {
                    assert(header_name_ok(pairs@[i as int].0@));
                    assert(header_value_ok(pairs@[i as int].1@));
                }
                hdrs.push((name.clone(), value.clone()));
                i = i + 1;
            }
        }
        None => {}
    }
    let body = match &config.body {
        Some(b) => match row {
            Some(rw) => Some(replace_placeholders(b.as_str(), rw)),
            None => Some(b.clone()),
        },
        None => None,
    };
    Ok(
        RequestDescriptor {
            method: config.effective_method(),
            url: config.url.clone(),
            headers: hdrs,
            body,
        },
    )
}

} // verus!
