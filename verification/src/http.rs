//! What is said over HTTP: headers, and what an answer means.
use vstd::prelude::*;

use crate::text;

verus! {

/// A header: its name and its value.
pub type HeaderView = (Seq<char>, Seq<char>);

/// What a list of headers says.
pub open spec fn header_views(h: Seq<(&'static str, String)>) -> Seq<HeaderView> {
    h.map_values(|x: (&'static str, String)| (x.0@, x.1@))
}

/// The headers of a request with a protobuf body: how the body is compressed, if it is, and
/// the credentials, if there are any.
pub open spec fn protobuf_headers(encoding: Option<Seq<char>>, auth: Option<Seq<char>>) -> Seq<
    HeaderView,
> {
    seq![("Content-Type"@, "application/x-protobuf"@)] + match encoding {
        Some(e) => seq![("Content-Encoding"@, e)],
        None => Seq::empty(),
    } + match auth {
        Some(a) => seq![("Authorization"@, a)],
        None => Seq::empty(),
    }
}

/// The headers of a request with a protobuf body.
pub fn headers(encoding: Option<&str>, auth: &Option<String>) -> (r: Vec<(&'static str, String)>)
    ensures
        header_views(r@) == protobuf_headers(
            match encoding {
                Some(e) => Some(e@),
                None => None,
            },
            match *auth {
                Some(a) => Some(a@),
                None => None,
            },
        ),
{
    let mut r: Vec<(&'static str, String)> = Vec::new();
    r.push(("Content-Type", text::owned("application/x-protobuf")));
    match encoding {
        Some(e) => {
            r.push(("Content-Encoding", text::owned(e)));
        },
        None => {},
    }
    match auth {
        Some(a) => {
            r.push(("Authorization", a.clone()));
        },
        None => {},
    }
    assert(header_views(r@) =~= protobuf_headers(
        match encoding {
            Some(e) => Some(e@),
            None => None,
        },
        match *auth {
            Some(a) => Some(a@),
            None => None,
        },
    ));
    r
}

/// An answer to a request: the code, the status line and the body.
pub struct Response {
    pub code: u16,
    /// The code with the words that go with it, such as `404 Not Found`.
    pub status: String,
    pub body: String,
}

impl Response {
    /// The request succeeded.
    pub open spec fn success(self) -> bool {
        200 <= self.code < 300
    }

    /// Whether the request succeeded.
    pub fn is_success(&self) -> (r: bool)
        ensures
            r == self.success(),
    {
        200 <= self.code && self.code < 300
    }
}

/// The address of an API: the endpoint without slashes at its end, and the path of the API
/// unless the endpoint has it.
pub open spec fn api_address(endpoint: Seq<char>, api: Seq<char>) -> Seq<char> {
    let base = text::without_trailing(endpoint, '/');
    if text::ends(base, api) {
        base
    } else {
        base + api
    }
}

/// The address of an API.
pub fn with_api_path(endpoint: &str, api: &str) -> (r: String)
    ensures
        r@ == api_address(endpoint@, api@),
{
    let base = text::strip_trailing(endpoint, '/');
    if text::ends_with(base.as_str(), api) {
        base
    } else {
        text::cat2(base.as_str(), api)
    }
}

/// An address that has the path of its API, and does not end with a slash, is left as it is:
/// completing an address twice is completing it once.
pub proof fn address_is_stable(endpoint: Seq<char>, api: Seq<char>)
    requires
        api.len() > 0,
        api.last() != '/',
    ensures
        api_address(api_address(endpoint, api), api) == api_address(endpoint, api),
{
    let a = api_address(endpoint, api);
    let base = text::without_trailing(endpoint, '/');
    assert(text::ends(a, api)) by {
        if !text::ends(base, api) {
            assert(a.skip(a.len() - api.len()) =~= api);
        }
    }
    assert(a.last() == a.skip(a.len() - api.len()).last());
}

/// An endpoint without the path of the API gets it, whether the endpoint ends with a slash or
/// not, and an endpoint that has the path keeps it.
pub proof fn endpoint_gets_the_path_once(endpoint: Seq<char>, api: Seq<char>)
    requires
        endpoint.len() > 0,
        endpoint.last() != '/',
        api.len() > 0,
        api.last() != '/',
    ensures
        !text::ends(endpoint, api) ==> api_address(endpoint, api) == endpoint + api,
        api_address(endpoint + api, api) == endpoint + api,
        api_address(endpoint.push('/'), api) == api_address(endpoint, api),
{
    assert(endpoint.push('/').drop_last() =~= endpoint);
    text::ends_of_a_text(endpoint, api);
    assert((endpoint + api).last() == api.last());
}

/// A request says that its body is protobuf, how that is compressed and who sends it, each
/// once, and nothing where there is nothing to say.
pub proof fn headers_say_what_is_sent(encoding: Option<Seq<char>>, auth: Option<Seq<char>>)
    ensures
        ({
            let h = protobuf_headers(encoding, auth);
            &&& h.contains(("Content-Type"@, "application/x-protobuf"@))
            &&& h.len() == 1 + (if encoding is Some {
                1int
            } else {
                0
            }) + (if auth is Some {
                1int
            } else {
                0
            })
            &&& encoding matches Some(e) ==> h.contains(("Content-Encoding"@, e))
            &&& auth matches Some(a) ==> h.contains(("Authorization"@, a))
        }),
{
    let h = protobuf_headers(encoding, auth);
    assert(h[0] == ("Content-Type"@, "application/x-protobuf"@));
    match encoding {
        Some(e) => {
            assert(h[1] == ("Content-Encoding"@, e));
        },
        None => {},
    }
    match auth {
        Some(a) => {
            assert(h[h.len() - 1] == ("Authorization"@, a));
        },
        None => {},
    }
}

/// A code from 200 to 299 is a success, and no other is.
pub proof fn codes_from_200_to_299_are_success(response: Response)
    ensures
        response.success() <==> 200 <= response.code && response.code < 300,
{
}

} // verus!
