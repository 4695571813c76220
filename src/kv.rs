use vstd::prelude::*;

use crate::error::Error;

verus! {

/// An entry's value as the store sent it: the content of a JSON string (the
/// store's convention, a serialized document), or the text of any other JSON
/// value (foreign data).
#[derive(Clone, Debug)]
pub enum WireValue {
    Text(String),
    Json(String),
}

/// One stored key and its value, as a listing of the store returns them.
#[derive(Clone, Debug)]
pub struct KeyValueData {
    pub key: String,
    pub value: WireValue,
}

/// Whether `text` is one complete JSON document.
pub uninterp spec fn parses_as_json(text: Seq<char>) -> bool;

/// The JSON string literal, quotes and escapes included, that holds `s`.
pub uninterp spec fn json_string_literal(s: Seq<char>) -> Seq<char>;

/// `s` percent-encoded for a URL path segment.
pub uninterp spec fn url_escaped(s: Seq<char>) -> Seq<char>;

/// Relies on `serde_json::from_str::<serde_json::Value>`: it succeeds exactly
/// when `text` is a JSON document.
#[verifier::external_body]
fn is_json(text: &str) -> (r: bool)
    ensures
        r == parses_as_json(text@),
{
    serde_json::from_str::<serde_json::Value>(text).is_ok()
}

/// Relies on `serde_json::to_string` on a `str`: it writes the quoted, escaped
/// literal, and cannot fail on a string.
#[verifier::external_body]
fn quote_json(s: &str) -> (r: String)
    ensures
        r@ == json_string_literal(s@),
{
    serde_json::to_string(s).unwrap_or_default()
}

/// Characters that a URL path segment holds as they are.
pub open spec fn unreserved(c: char) -> bool {
    ('0' <= c && c <= '9') || ('A' <= c && c <= 'Z') || ('a' <= c && c <= 'z') || c == '-' || c
        == '.' || c == '_' || c == '~'
}

/// Relies on `urlencoding::encode`: every byte but the unreserved ASCII
/// characters becomes `%XX`; a text of unreserved characters only comes back
/// unchanged.
#[verifier::external_body]
fn escape_segment(s: &str) -> (r: String)
    ensures
        r@ == url_escaped(s@),
        (forall|i: int| 0 <= i < s@.len() ==> unreserved(#[trigger] s@[i])) ==> r@ == s@,
{
    urlencoding::encode(s).into_owned()
}

/// The document that a stored value stands for, as JSON text: a string that
/// holds a JSON document stands for that document; any other string stands
/// for itself, as a JSON string; a value that is not a string stands for itself.
pub open spec fn decoded(w: WireValue) -> Seq<char> {
    match w {
        WireValue::Text(s) => if parses_as_json(s@) {
            s@
        } else {
            json_string_literal(s@)
        },
        WireValue::Json(t) => t@,
    }
}

/// What the store is sent for the document `document`: its JSON text, carried
/// as a string.
pub open spec fn encoded(document: String) -> WireValue {
    WireValue::Text(document)
}

/// The JSON text of an empty list.
pub open spec fn empty_list() -> Seq<char> {
    seq!['[', ']']
}

/// Turns a stored value back into the document text it stands for.
pub fn decode(w: &WireValue) -> (r: String)
    ensures
        r@ == decoded(*w),
{
    match w {
        WireValue::Text(s) => {
            if is_json(s.as_str()) {
                s.clone()
            } else {
                quote_json(s.as_str())
            }
        },
        WireValue::Json(t) => t.clone(),
    }
}

/// Wraps a document's JSON text as the string value that the store keeps.
pub fn encode(document: String) -> (r: WireValue)
    ensures
        r == encoded(document),
{
    WireValue::Text(document)
}

/// Every JSON document comes back unchanged from `decode` after `encode`.
pub proof fn lemma_decode_encode(document: String)
    ensures
        parses_as_json(document@) ==> decoded(encoded(document)) == document@,
{
}

/// A 2xx status.
pub open spec fn is_success(status: u16) -> bool {
    200 <= status && status <= 299
}

/// The status with which the store reports an absent key.
pub const NOT_FOUND: u16 = 404;

/// The document that a read of a key yields, from the response status and the
/// value in the response body (if the body had one): on success the decoded
/// value; on 404 an empty list, since every stored value is a list; any other
/// status is an `ApiError`.
pub fn read_outcome(status: u16, value: Option<WireValue>) -> (r: Result<String, Error>)
    ensures
        is_success(status) ==> match value {
            Some(w) => r matches Ok(d) && d@ == decoded(w),
            None => r matches Err(Error::DeserializationError),
        },
        status == NOT_FOUND ==> (r matches Ok(d) && d@ == empty_list()),
        !is_success(status) && status != NOT_FOUND ==> (r matches Err(Error::ApiError(s)) && s
            == status),
{
    if 200 <= status && status <= 299 {
        match value {
            Some(w) => Ok(decode(&w)),
            None => Err(Error::DeserializationError),
        }
    } else if status == NOT_FOUND {
        proof {
            reveal_strlit("[]");
        }
        Ok(String::from_str("[]"))
    } else {
        Err(Error::ApiError(status))
    }
}

/// The outcome of a request that only a 2xx answers: a create, a replace, a listing.
pub fn success_outcome(status: u16) -> (r: Result<(), Error>)
    ensures
        is_success(status) <==> r is Ok,
        r matches Err(e) ==> (e matches Error::ApiError(s) && s == status),
{
    if 200 <= status && status <= 299 {
        Ok(())
    } else {
        Err(Error::ApiError(status))
    }
}

/// The outcome of a deletion; where `absent_ok`, a 404 counts as done, the key
/// being already gone.
pub fn delete_outcome(status: u16, absent_ok: bool) -> (r: Result<(), Error>)
    ensures
        (is_success(status) || (absent_ok && status == NOT_FOUND)) <==> r is Ok,
        r matches Err(e) ==> (e matches Error::ApiError(s) && s == status),
{
    if (200 <= status && status <= 299) || (absent_ok && status == NOT_FOUND) {
        Ok(())
    } else {
        Err(Error::ApiError(status))
    }
}

/// The key of the project list.
pub open spec fn projects_key_text() -> Seq<char> {
    seq!['p', 'r', 'o', 'j', 'e', 'c', 't', 's']
}

/// The key of a project's time entries.
pub open spec fn time_key_of(slug: Seq<char>) -> Seq<char> {
    projects_key_text().push('/') + slug
}

pub fn projects_key() -> (r: String)
    ensures
        r@ == projects_key_text(),
{
    proof {
        reveal_strlit("projects");
    }
    String::from_str("projects")
}

pub fn time_key(slug: &str) -> (r: String)
    ensures
        r@ == time_key_of(slug@),
{
    proof {
        reveal_strlit("projects/");
        assert("projects/"@ =~= projects_key_text().push('/'));
    }
    String::from_str("projects/").concat(slug)
}

/// Time-entry keys of different slugs differ, and none is the project list's key.
pub proof fn lemma_keys_distinct(a: Seq<char>, b: Seq<char>)
    ensures
        (time_key_of(a) == time_key_of(b)) == (a == b),
        time_key_of(a) != projects_key_text(),
{
    if time_key_of(a) == time_key_of(b) {
        assert(a =~= time_key_of(a).subrange(9, time_key_of(a).len() as int));
        assert(b =~= time_key_of(b).subrange(9, time_key_of(b).len() as int));
    }
    assert(time_key_of(a).len() >= 9);
}

/// The addresses of the store's endpoints.
pub struct Endpoints {
    pub login_url: String,
    pub data_url: String,
}

impl Endpoints {
    /// `{domain}/login` and `{domain}/{project}/data`.
    pub fn new(domain: &str, project: &str) -> (r: Endpoints)
        ensures
            r.login_url@ == domain@ + "/login"@,
            r.data_url@ == domain@ + "/"@ + project@ + "/data"@,
    {
        let login_url = String::from_str(domain).concat("/login");
        let data_url = String::from_str(domain).concat("/").concat(project).concat("/data");
        Endpoints { login_url, data_url }
    }

    /// The address of one key: the data address, `/`, and the escaped key.
    pub fn key_url(&self, key: &str) -> (r: String)
        ensures
            r@ == self.data_url@ + "/"@ + url_escaped(key@),
    {
        let escaped = escape_segment(key);
        self.data_url.clone().concat("/").concat(escaped.as_str())
    }
}

/// The credential of one run: every data request carries it, and none may be
/// made without it.
pub struct Session {
    token: Option<String>,
}

impl Session {
    pub closed spec fn token_spec(&self) -> Option<Seq<char>> {
        match self.token {
            Some(t) => Some(t@),
            None => None,
        }
    }

    /// A session without a credential yet.
    pub fn new() -> (r: Session)
        ensures
            r.token_spec() is None,
    {
        Session { token: None }
    }

    /// A session that holds `token`.
    pub fn with_token(token: String) -> (r: Session)
        ensures
            r.token_spec() == Some(token@),
    {
        Session { token: Some(token) }
    }

    pub fn is_authenticated(&self) -> (r: bool)
        ensures
            r == self.token_spec() is Some,
    {
        self.token.is_some()
    }

    /// The `Authorization` header value, `Bearer <token>`; `NotAuthenticated`
    /// before a credential was obtained.
    pub fn authorization(&self) -> (r: Result<String, Error>)
        ensures
            match self.token_spec() {
                Some(t) => r matches Ok(h) && h@ == "Bearer "@ + t,
                None => r matches Err(Error::NotAuthenticated),
            },
    {
        match &self.token {
            Some(t) => Ok(String::from_str("Bearer ").concat(t.as_str())),
            None => Err(Error::NotAuthenticated),
        }
    }
}

} // verus!
