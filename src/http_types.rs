use vstd::prelude::*;

use crate::error::Error;
use vstd::string::StringSliceAdditionalSpecFns;

verus! {

/// The request methods the server understands.
#[derive(Clone, Copy, Debug, PartialEq, Eq, Structural)]
pub enum Method {
    GET,
    POST,
    PUT,
    DELETE,
    PATCH,
}

/// The token that names a method on the wire (matched case-sensitively).
pub open spec fn method_token(m: Method) -> Seq<u8> {
    match m {
        Method::GET => "GET".spec_bytes(),
        Method::POST => "POST".spec_bytes(),
        Method::PUT => "PUT".spec_bytes(),
        Method::DELETE => "DELETE".spec_bytes(),
        Method::PATCH => "PATCH".spec_bytes(),
    }
}

/// The method a token names, or `UnsupportedMethod`.
pub open spec fn method_from_token(t: Seq<u8>) -> Result<Method, Error> {
    if t == method_token(Method::GET) {
        Ok(Method::GET)
    } else if t == method_token(Method::POST) {
        Ok(Method::POST)
    } else if t == method_token(Method::PUT) {
        Ok(Method::PUT)
    } else if t == method_token(Method::DELETE) {
        Ok(Method::DELETE)
    } else if t == method_token(Method::PATCH) {
        Ok(Method::PATCH)
    } else {
        Err(Error::UnsupportedMethod)
    }
}

/// Byte-wise equality of two slices.
pub fn bytes_equal(a: &[u8], b: &[u8]) -> (r: bool)
    ensures
        r == (a@ == b@),
{
    if a.len() != b.len() {
        return false;
    }
    let mut i: usize = 0;
    while i < a.len()
        invariant
            a@.len() == b@.len(),
            0 <= i <= a@.len(),
            forall|j: int| 0 <= j < i ==> a@[j] == b@[j],
        decreases a@.len() - i,
    {
        if a[i] != b[i] {
            return false;
        }
        i = i + 1;
    }
    assert(a@ =~= b@);
    true
}

impl Method {
    /// Parses a method token; the supported set is matched case-sensitively.
    pub fn from_token(t: &[u8]) -> (r: Result<Method, Error>)
        ensures
            r == method_from_token(t@),
    {
        if bytes_equal(t, "GET".as_bytes()) {
            Ok(Method::GET)
        } else if bytes_equal(t, "POST".as_bytes()) {
            Ok(Method::POST)
        } else if bytes_equal(t, "PUT".as_bytes()) {
            Ok(Method::PUT)
        } else if bytes_equal(t, "DELETE".as_bytes()) {
            Ok(Method::DELETE)
        } else if bytes_equal(t, "PATCH".as_bytes()) {
            Ok(Method::PATCH)
        } else {
            Err(Error::UnsupportedMethod)
        }
    }

    /// The method's name as it appears on the wire.
    pub fn name(&self) -> (r: &'static str)
        ensures
            r.spec_bytes() == method_token(*self),
    {
        match self {
            Method::GET => "GET",
            Method::POST => "POST",
            Method::PUT => "PUT",
            Method::DELETE => "DELETE",
            Method::PATCH => "PATCH",
        }
    }
}

/// The value stored last for `k` among `s`, if any: later entries win.
pub open spec fn lookup(s: Seq<(String, String)>, k: Seq<char>) -> Option<Seq<char>>
    decreases s.len(),
{
    if s.len() == 0 {
        None
    } else if s.last().0@ == k {
        Some(s.last().1@)
    } else {
        lookup(s.drop_last(), k)
    }
}

/// Header fields of a request: names are kept as received (case and all) and a
/// later value for the same name replaces an earlier one.
#[derive(Clone, Debug)]
pub struct Headers {
    entries: Vec<(String, String)>,
}

impl View for Headers {
    type V = Map<Seq<char>, Seq<char>>;

    closed spec fn view(&self) -> Map<Seq<char>, Seq<char>> {
        Map::new(
            |k: Seq<char>| lookup(self.entries@, k) is Some,
            |k: Seq<char>| lookup(self.entries@, k)->Some_0,
        )
    }
}

impl Headers {
    /// No header fields.
    pub fn new() -> (r: Headers)
        ensures
            r@ == Map::<Seq<char>, Seq<char>>::empty(),
    {
        let r = Headers { entries: Vec::new() };
        assert(r@ =~= Map::<Seq<char>, Seq<char>>::empty());
        r
    }

    /// Stores `value` under `key`, replacing what an earlier insert stored there.
    pub fn insert(&mut self, key: String, value: String)
        ensures
            final(self)@ == old(self)@.insert(key@, value@),
    {
        let ghost before = self.entries@;
        self.entries.push((key, value));
        proof {
            assert(self.entries@.drop_last() =~= before);
        }
        assert(self@ =~= old(self)@.insert(key@, value@));
    }

    /// The value stored under `key`, if any.
    pub fn get(&self, key: &str) -> (r: Option<&String>)
        ensures
            match r {
                Some(v) => self@.contains_key(key@) && self@[key@] == v@,
                None => !self@.contains_key(key@),
            },
    {
        let k = key.to_owned();
        let mut i: usize = self.entries.len();
        assert(self.entries@.take(i as int) =~= self.entries@);
        while i > 0
            invariant
                0 <= i <= self.entries@.len(),
                k@ == key@,
                lookup(self.entries@, key@) == lookup(self.entries@.take(i as int), key@),
            decreases i,
        {
            proof {
                assert(self.entries@.take(i as int).drop_last() =~= self.entries@.take(i - 1));
            }
            if self.entries[i - 1].0 == k {
                return Some(&self.entries[i - 1].1);
            }
            i = i - 1;
        }
        None
    }

    /// Whether a value is stored under `key`.
    pub fn contains_key(&self, key: &str) -> (r: bool)
        ensures
            r == self@.contains_key(key@),
    {
        self.get(key).is_some()
    }
}

/// A parsed request: method, path, header fields and the body, if one was sent.
#[derive(Clone, Debug)]
pub struct Request {
    pub method: Method,
    pub path: String,
    pub headers: Headers,
    pub raw_body: Option<String>,
}

/// A response: status code and an optional body.
#[derive(Clone, Debug, PartialEq, Eq)]
pub struct Response {
    pub status: u16,
    pub body: Option<String>,
}

impl Response {
    /// A response with the given status and body.
    pub fn new(status: u16, body: String) -> (r: Response)
        ensures
            r.status == status,
            r.body == Some(body),
    {
        Response { status, body: Some(body) }
    }

    /// The response for a body that a serialiser produced, or failed to
    /// (`None`): a failure turns into a 500 with the text `serialization error`.
    pub fn from_serialized(status: u16, body: Option<String>) -> (r: Response)
        ensures
            body is Some ==> r == (Response { status, body }),
            body is None ==> r.status == 500 && r.body is Some
                && r.body->Some_0@ == "serialization error"@,
    {
        match body {
            Some(b) => Response { status, body: Some(b) },
            None => Response { status: 500, body: Some("serialization error".to_owned()) },
        }
    }
}

} // verus!
