use vstd::prelude::*;
use vstd::string::StrSliceExecFns;
use vstd::utf8::encode_utf8;

use crate::error::{AppError, AppResult};
use crate::string_map::StringMap;

verus! {

broadcast use vstd::string::group_string_axioms;

/// What a byte of a header name becomes in the normalised name: ASCII
/// letters are lowered, the other token characters stay, and every other
/// byte maps to 0, which makes the name invalid.
pub open spec fn header_name_byte(b: u8) -> u8 {
    if 65 <= b <= 90 {
        (b + 32) as u8
    } else if (33 <= b <= 39) || b == 42 || b == 43 || b == 45 || b == 46 || (48 <= b <= 57) || (94
        <= b <= 122) || b == 124 || b == 126 {
        b
    } else {
        0
    }
}

/// The bytes form a header name: between 1 and 65535 of them, each one of
/// the token characters.
pub open spec fn valid_header_name(bytes: Seq<u8>) -> bool {
    &&& 1 <= bytes.len() <= 65535
    &&& forall|i: int| 0 <= i < bytes.len() ==> header_name_byte(#[trigger] bytes[i]) != 0
}

/// The normalised (lower-case) name that the bytes of a valid name give.
pub open spec fn header_name_text(bytes: Seq<u8>) -> Seq<char> {
    Seq::new(bytes.len(), |i: int| header_name_byte(bytes[i]) as char)
}

/// The bytes form a header value: each is a tab, or a byte from 32 to 255
/// other than 127.
pub open spec fn valid_header_value(bytes: Seq<u8>) -> bool {
    forall|i: int| 0 <= i < bytes.len() ==> (#[trigger] bytes[i] >= 32 && bytes[i] != 127) || bytes[i] == 9
}

/// `hyper::header::HeaderName::from_bytes` on the bytes of `name`: it
/// accepts exactly the valid names, and the name it builds reads as the
/// input with its ASCII letters lowered.
#[verifier::external_body]
fn parse_header_name(name: &str) -> (r: Option<String>)
    ensures
        r is Some <==> valid_header_name(encode_utf8(name@)),
        r matches Some(n) ==> n@ == header_name_text(encode_utf8(name@)),
{
    match hyper::header::HeaderName::from_bytes(name.as_bytes()) {
        Ok(n) => Some(n.as_str().to_string()),
        Err(_) => None,
    }
}

/// `hyper::header::HeaderValue::from_str`: it accepts exactly the strings
/// whose bytes are tabs or lie from 32 to 255, leaving out 127.
#[verifier::external_body]
fn header_value_accepted(value: &str) -> (r: bool)
    ensures
        r == valid_header_value(encode_utf8(value@)),
{
    hyper::header::HeaderValue::from_str(value).is_ok()
}

/// The headers after setting `name` to `value`: the normalised name now
/// maps to the value alone; nothing changes where the name or the value is
/// not valid.
pub open spec fn headers_after_set(
    headers: Map<Seq<char>, Seq<char>>,
    name: Seq<char>,
    value: Seq<char>,
) -> Map<Seq<char>, Seq<char>> {
    if valid_header_name(encode_utf8(name)) && valid_header_value(encode_utf8(value)) {
        headers.insert(header_name_text(encode_utf8(name)), value)
    } else {
        headers
    }
}

/// The order of the header names after setting `name` to `value`: a name
/// set for the first time comes last; a name set again keeps its place.
pub open spec fn header_names_after_set(
    names: Seq<Seq<char>>,
    headers: Map<Seq<char>, Seq<char>>,
    name: Seq<char>,
    value: Seq<char>,
) -> Seq<Seq<char>> {
    if valid_header_name(encode_utf8(name)) && valid_header_value(encode_utf8(value))
        && !headers.contains_key(header_name_text(encode_utf8(name))) {
        names.push(header_name_text(encode_utf8(name)))
    } else {
        names
    }
}

/// What setting a header stores: for a valid name and value, the name
/// lowered to its normalised form maps to the value exactly as given, and
/// every other header is kept; otherwise the headers are unchanged. Only
/// the name is normalised, and only its ASCII capitals are lowered.
pub proof fn law_set_header_stores_value(
    headers: Map<Seq<char>, Seq<char>>,
    name: Seq<char>,
    value: Seq<char>,
    other: Seq<char>,
)
    ensures
        ({
            let after = headers_after_set(headers, name, value);
            let n = header_name_text(encode_utf8(name));
            &&& valid_header_name(encode_utf8(name)) && valid_header_value(encode_utf8(value)) ==> {
                &&& after.contains_key(n)
                &&& after[n] == value
                &&& other != n ==> (after.contains_key(other) == headers.contains_key(other))
                &&& other != n && headers.contains_key(other) ==> after[other] == headers[other]
            }
            &&& !(valid_header_name(encode_utf8(name)) && valid_header_value(encode_utf8(value)))
                ==> after == headers
        }),
        forall|i: int|
            0 <= i < encode_utf8(name).len() ==> {
                let b = #[trigger] encode_utf8(name)[i];
                &&& 65 <= b <= 90 ==> header_name_text(encode_utf8(name))[i] == ((b + 32) as u8) as char
                &&& (97 <= b <= 122 || 48 <= b <= 57 || b == 45) ==> header_name_text(
                    encode_utf8(name),
                )[i] == b as char
            },
        header_name_text(encode_utf8(name)).len() == encode_utf8(name).len(),
{
}

/// Setting a header replaces what it held: of two settings of names that
/// normalise alike (such as `Content-Type` and `content-type`), the second
/// is all that remains, provided its value is valid.
pub proof fn law_set_header_replaces(
    headers: Map<Seq<char>, Seq<char>>,
    k1: Seq<char>,
    v1: Seq<char>,
    k2: Seq<char>,
    v2: Seq<char>,
)
    requires
        valid_header_name(encode_utf8(k2)),
        valid_header_value(encode_utf8(v2)),
        valid_header_name(encode_utf8(k1)) ==> header_name_text(encode_utf8(k1)) == header_name_text(
            encode_utf8(k2),
        ),
    ensures
        headers_after_set(headers_after_set(headers, k1, v1), k2, v2) == headers_after_set(
            headers,
            k2,
            v2,
        ),
{
    assert(headers_after_set(headers_after_set(headers, k1, v1), k2, v2) =~= headers_after_set(
        headers,
        k2,
        v2,
    ));
}

/// The mathematical value of a response: status code, header map from
/// normalised names to values, and body bytes.
pub struct ResponseView {
    pub status: u16,
    pub headers: Map<Seq<char>, Seq<char>>,
    /// The header names, in the order in which they were first set.
    pub header_names: Seq<Seq<char>>,
    pub body: Seq<u8>,
}

/// An outgoing HTTP response.
pub struct Response {
    status: u16,
    headers: StringMap,
    body: Vec<u8>,
}

impl View for Response {
    type V = ResponseView;

    open spec fn view(&self) -> ResponseView {
        ResponseView {
            status: self.status_code(),
            headers: self.header_map(),
            header_names: self.header_order(),
            body: self.body_bytes(),
        }
    }
}

impl Response {
    /// A status code is a number from 100 to 999.
    #[verifier::type_invariant]
    spec fn status_in_range(self) -> bool {
        100 <= self.status <= 999
    }

    /// The status code.
    pub closed spec fn status_code(self) -> u16 {
        self.status
    }

    /// The headers, by normalised name.
    pub closed spec fn header_map(self) -> Map<Seq<char>, Seq<char>> {
        self.headers@
    }

    /// The header names, in the order in which they were first set.
    pub closed spec fn header_order(self) -> Seq<Seq<char>> {
        self.headers.names()
    }

    /// The body.
    pub closed spec fn body_bytes(self) -> Seq<u8> {
        self.body@
    }

    /// A response with status `status`, no header, and body `body`.
    pub fn new(status: u16, body: Vec<u8>) -> (r: Response)
        requires
            100 <= status <= 999,
        ensures
            r@ == (ResponseView {
                status,
                headers: Map::<Seq<char>, Seq<char>>::empty(),
                header_names: Seq::<Seq<char>>::empty(),
                body: body@,
            }),
    {
        Response { status, headers: StringMap::new(), body }
    }

    /// A response with status 200, the JSON text `serialized` as its body
    /// and the header `content-type: application/json`; when serialising
    /// the value failed, that error as `AppError::Serde`.
    pub fn ok_json(serialized: Result<String, serde_json::Error>) -> (r: AppResult)
        ensures
            match serialized {
                Ok(text) => r matches Ok(res) && res@ == (ResponseView {
                    status: 200,
                    headers: map![content_type_name() => json_media_type()],
                    header_names: seq![content_type_name()],
                    body: encode_utf8(text@),
                }),
                Err(e) => r == Err::<Response, AppError>(AppError::Serde(e)),
            },
    {
        match serialized {
            Ok(text) => {
                let mut res = Response::new(200, text.as_str().as_bytes_vec());
                res.set_header("Content-Type", "application/json");
                proof {
                    lemma_json_content_type();
                    assert(res.header_map() =~= map![content_type_name() => json_media_type()]);
                    assert(res.header_order() =~= seq![content_type_name()]);
                }
                Ok(res)
            },
            Err(e) => Err(AppError::Serde(e)),
        }
    }

    /// Sets the header `k` to `v`, replacing the values it had. The name is
    /// normalised to lower case. Where `k` is no valid header name or `v`
    /// no valid header value, nothing changes.
    pub fn set_header(&mut self, k: &str, v: &str)
        ensures
            final(self)@.status == old(self)@.status,
            final(self)@.body == old(self)@.body,
            final(self)@.headers == headers_after_set(old(self)@.headers, k@, v@),
            final(self)@.header_names == header_names_after_set(
                old(self)@.header_names,
                old(self)@.headers,
                k@,
                v@,
            ),
    {
        let name = match parse_header_name(k) {
            Some(n) => n,
            None => return ,
        };
        if header_value_accepted(v) {
            proof {
                use_type_invariant(&*self);
            }
            let mut headers = StringMap::new();
            std::mem::swap(&mut headers, &mut self.headers);
            headers.insert(name, v.to_owned());
            self.headers = headers;
        }
    }

    /// The status code.
    pub fn status(&self) -> (s: u16)
        ensures
            s == self@.status,
    {
        self.status
    }

    /// The headers, each normalised name once.
    pub fn headers(&self) -> (h: &StringMap)
        ensures
            h@ == self@.headers,
            h.names() == self@.header_names,
    {
        &self.headers
    }

    /// The body.
    pub fn body(&self) -> (b: &[u8])
        ensures
            b@ == self@.body,
    {
        self.body.as_slice()
    }
}

/// `content-type`, the normalised name of the `Content-Type` header.
pub open spec fn content_type_name() -> Seq<char> {
    seq!['c', 'o', 'n', 't', 'e', 'n', 't', '-', 't', 'y', 'p', 'e']
}

/// `application/json`.
pub open spec fn json_media_type() -> Seq<char> {
    seq!['a', 'p', 'p', 'l', 'i', 'c', 'a', 't', 'i', 'o', 'n', '/', 'j', 's', 'o', 'n']
}

/// `Content-Type` is a valid header name that normalises to `content-type`,
/// and `application/json` is a valid header value.
proof fn lemma_json_content_type()
    ensures
        valid_header_name(encode_utf8("Content-Type"@)),
        header_name_text(encode_utf8("Content-Type"@)) == content_type_name(),
        valid_header_value(encode_utf8("application/json"@)),
        "application/json"@ == json_media_type(),
{
    reveal_strlit("Content-Type");
    reveal_strlit("application/json");
    let n = "Content-Type";
    let v = "application/json";
    assert(n@ =~= seq!['C', 'o', 'n', 't', 'e', 'n', 't', '-', 'T', 'y', 'p', 'e']);
    assert(v@ =~= json_media_type());
    assert(vstd::utf8::is_ascii_chars(n@));
    assert(vstd::utf8::is_ascii_chars(v@));
    vstd::utf8::is_ascii_chars_encode_utf8(n@);
    vstd::utf8::is_ascii_chars_encode_utf8(v@);
    let nb = encode_utf8(n@);
    let vb = encode_utf8(v@);
    assert(nb =~= seq![67u8, 111, 110, 116, 101, 110, 116, 45, 84, 121, 112, 101]);
    assert(vb =~= seq![97u8, 112, 112, 108, 105, 99, 97, 116, 105, 111, 110, 47, 106, 115, 111, 110]);
    assert(header_name_text(nb) =~= content_type_name());
}

} // verus!
