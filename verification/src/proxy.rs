//! Rewriting a request for the upstream server and cleaning its answer.

use vstd::prelude::*;
use vstd::utf8::encode_utf8;
use crate::headers::{
    Header,
    headers_view,
    header_values,
    first_value,
    first_named,
    set_header,
    set_header_value,
    find_first,
    without_hop_headers,
    is_hop_header_name,
    remove_hop_headers,
    free_of_hop_headers,
    ascii_fold,
    law_end_to_end_headers_kept,
    law_hop_headers_never_forwarded,
    lemma_first_value,
    lemma_set_header_values,
    lemma_set_header_free,
};

verus! {

/// The part of an incoming request that is forwarded.
#[derive(Debug)]
pub struct ProxyRequest {
    pub path: String,
    pub query: Option<String>,
    pub headers: Vec<Header>,
}

#[verifier::external_type_specification]
#[verifier::external_body]
pub struct ExUri(http::Uri);

#[verifier::external_type_specification]
#[verifier::external_body]
pub struct ExInvalidUri(http::uri::InvalidUri);

/// Whether the `http` crate accepts the text as a URI.
pub uninterp spec fn uri_accepts(text: Seq<char>) -> bool;

/// The URI the `http` crate parses from the text.
pub uninterp spec fn parsed_uri(text: Seq<char>) -> http::Uri;

/// `<http::Uri as FromStr>::from_str`: succeeds exactly when the crate
/// accepts the text (named `uri_accepts`), and then gives the URI parsed
/// from that text alone (named `parsed_uri`).
#[verifier::external_body]
fn parse_uri(text: &str) -> (parsed: Result<http::Uri, http::uri::InvalidUri>)
    ensures
        parsed is Ok <==> uri_accepts(text@),
        parsed matches Ok(u) ==> u == parsed_uri(text@),
{
    text.parse::<http::Uri>()
}

/// The request to send upstream: its URI, as text and parsed, and its headers.
#[derive(Debug)]
pub struct ForwardedRequest {
    pub uri_text: String,
    pub uri: http::Uri,
    pub headers: Vec<Header>,
}

/// An upstream URI, as text and parsed from that text.
#[derive(Debug)]
pub struct ForwardUri {
    pub text: String,
    pub uri: http::Uri,
}

/// The upstream URI: the forward address, the request path, and the query
/// after a `?` when there is one.
pub open spec fn forward_target(url: Seq<char>, path: Seq<char>, query: Option<Seq<char>>) -> Seq<
    char,
> {
    match query {
        Some(q) => url + path + "?"@ + q,
        None => url + path,
    }
}

/// The text of a query, if any.
pub open spec fn query_view(query: Option<&str>) -> Option<Seq<char>> {
    match query {
        Some(q) => Some(q@),
        None => None,
    }
}

/// The text of a request's query, if any.
pub open spec fn request_query(request: &ProxyRequest) -> Option<Seq<char>> {
    match request.query {
        Some(q) => Some(q@),
        None => None,
    }
}

/// Builds the text of the upstream URI for a request.
pub fn forward_text(forward_url: &str, path: &str, query: Option<&str>) -> (uri: String)
    ensures
        uri@ == forward_target(forward_url@, path@, query_view(query)),
{
    let mut uri = String::from_str(forward_url);
    uri.append(path);
    match query {
        Some(q) => {
            uri.append("?");
            uri.append(q);
        },
        None => {},
    }
    uri
}

/// The upstream URI for a request, parsed; the text must be a URI that the
/// `http` crate accepts.
pub fn forward_uri(forward_url: &str, path: &str, query: Option<&str>) -> (u: ForwardUri)
    requires
        uri_accepts(forward_target(forward_url@, path@, query_view(query))),
    ensures
        u.text@ == forward_target(forward_url@, path@, query_view(query)),
        u.uri == parsed_uri(forward_target(forward_url@, path@, query_view(query))),
{
    let text = forward_text(forward_url, path, query);
    let uri = parse_uri(text.as_str()).unwrap();
    ForwardUri { text, uri }
}

/// The name of the header that lists the clients a request passed through.
pub open spec fn forwarded_for_name() -> Seq<char> {
    "x-forwarded-for"@
}

/// Bytes that a header value may hold to be read as text: visible ASCII
/// and tab.
pub open spec fn visible_ascii(b: Seq<u8>) -> bool {
    forall|i: int| 0 <= i < b.len() ==> (32 <= #[trigger] b[i] < 127 || b[i] == 9)
}

/// The value the client list takes: `old, client` when there is one,
/// otherwise the client alone.
pub open spec fn forwarded_for_value(m: Seq<(Seq<char>, Seq<u8>)>, client: Seq<u8>) -> Seq<u8> {
    match first_value(m, forwarded_for_name()) {
        Some(old) => old + seq![44u8, 32u8] + client,
        None => client,
    }
}

/// The headers with the client appended to `x-forwarded-for`, set as a
/// header map sets an entry.
pub open spec fn with_forwarded_for(m: Seq<(Seq<char>, Seq<u8>)>, client: Seq<u8>) -> Seq<
    (Seq<char>, Seq<u8>),
> {
    set_header(m, forwarded_for_name(), forwarded_for_value(m, client))
}

/// Whether a request's headers can be forwarded: a client list it already
/// carries must be readable as text.
pub open spec fn forwardable(headers: Seq<(Seq<char>, Seq<u8>)>) -> bool {
    match first_value(headers, forwarded_for_name()) {
        Some(v) => visible_ascii(v),
        None => true,
    }
}

fn append_bytes(out: &mut Vec<u8>, more: &[u8])
    ensures
        final(out)@ == old(out)@ + more@,
{
    let ghost start = out@;
    for i in 0..more.len()
        invariant
            out@ == start + more@.take(i as int),
    {
        out.push(more[i]);
        assert(start + more@.take(i + 1) =~= (start + more@.take(i as int)).push(more@[i as int]));
    }
    assert(more@.take(more@.len() as int) =~= more@);
}

/// The headers with the client appended to `x-forwarded-for`.
fn add_forwarded_for(map: &Vec<Header>, client: &str) -> (out: Vec<Header>)
    requires
        forwardable(headers_view(map@)),
    ensures
        headers_view(out@) == with_forwarded_for(headers_view(map@), encode_utf8(client@)),
{
    let name = String::from_str("x-forwarded-for");
    let client_bytes = client.as_bytes();
    let ghost v = headers_view(map@);
    proof {
        lemma_first_value(v, name@);
    }
    let f = find_first(map, &name);
    let mut value: Vec<u8> = Vec::new();
    if f < map.len() {
        assert(v[f as int] == map@[f as int]@);
        append_bytes(&mut value, map[f].value.as_slice());
        value.push(44u8);
        value.push(32u8);
        append_bytes(&mut value, client_bytes);
        assert(value@ =~= map@[f as int].value@ + seq![44u8, 32u8] + encode_utf8(client@));
    } else {
        append_bytes(&mut value, client_bytes);
        assert(value@ =~= encode_utf8(client@));
    }
    set_header_value(map, &name, &value)
}

proof fn lemma_forwarded_for_not_hop()
    ensures
        !is_hop_header_name(forwarded_for_name()),
{
    reveal_strlit("x-forwarded-for");
    reveal_strlit("Connection");
    reveal_strlit("Keep-Alive");
    reveal_strlit("Proxy-Authenticate");
    reveal_strlit("Proxy-Authorization");
    reveal_strlit("Te");
    reveal_strlit("Trailers");
    reveal_strlit("Transfer-Encoding");
    reveal_strlit("Upgrade");
    assert(ascii_fold("x-forwarded-for"@).len() == 15);
    assert(ascii_fold("Connection"@).len() == 10);
    assert(ascii_fold("Keep-Alive"@).len() == 10);
    assert(ascii_fold("Proxy-Authenticate"@).len() == 18);
    assert(ascii_fold("Proxy-Authorization"@).len() == 19);
    assert(ascii_fold("Te"@).len() == 2);
    assert(ascii_fold("Trailers"@).len() == 8);
    assert(ascii_fold("Transfer-Encoding"@).len() == 17);
    assert(ascii_fold("Upgrade"@).len() == 7);
}

proof fn lemma_filtered_first_value(h: Seq<(Seq<char>, Seq<u8>)>)
    ensures
        first_value(without_hop_headers(h), forwarded_for_name()) == first_value(
            h,
            forwarded_for_name(),
        ),
{
    lemma_forwarded_for_not_hop();
    law_end_to_end_headers_kept(h, forwarded_for_name());
}

/// The request sent upstream: hop-by-hop headers removed, `x-forwarded-for`
/// extended with the client, and the URI pointed at the forward address,
/// which must parse.
pub fn create_proxy_request(client_ip: &str, forward_url: &str, request: ProxyRequest) -> (out:
    ForwardedRequest)
    requires
        forwardable(headers_view(request.headers@)),
        uri_accepts(forward_target(forward_url@, request.path@, request_query(&request))),
    ensures
        out.uri_text@ == forward_target(forward_url@, request.path@, request_query(&request)),
        out.uri == parsed_uri(forward_target(forward_url@, request.path@, request_query(&request))),
        headers_view(out.headers@) == with_forwarded_for(
            without_hop_headers(headers_view(request.headers@)),
            encode_utf8(client_ip@),
        ),
{
    let filtered = remove_hop_headers(&request.headers);
    proof {
        lemma_filtered_first_value(headers_view(request.headers@));
    }
    let target = match &request.query {
        Some(q) => forward_uri(forward_url, request.path.as_str(), Some(q.as_str())),
        None => forward_uri(forward_url, request.path.as_str(), None),
    };
    let headers = add_forwarded_for(&filtered, client_ip);
    ForwardedRequest { uri_text: target.text, uri: target.uri, headers }
}

/// The request sent upstream, or `None` when the upstream URI does not
/// parse.
pub fn try_create_proxy_request(client_ip: &str, forward_url: &str, request: ProxyRequest) -> (out:
    Option<ForwardedRequest>)
    requires
        forwardable(headers_view(request.headers@)),
    ensures
        out is Some <==> uri_accepts(
            forward_target(forward_url@, request.path@, request_query(&request)),
        ),
        out matches Some(r) ==> r.uri_text@ == forward_target(
            forward_url@,
            request.path@,
            request_query(&request),
        ) && r.uri == parsed_uri(forward_target(forward_url@, request.path@, request_query(&request)))
            && headers_view(r.headers@) == with_forwarded_for(
            without_hop_headers(headers_view(request.headers@)),
            encode_utf8(client_ip@),
        ),
{
    let text = match &request.query {
        Some(q) => forward_text(forward_url, request.path.as_str(), Some(q.as_str())),
        None => forward_text(forward_url, request.path.as_str(), None),
    };
    match parse_uri(text.as_str()) {
        Err(_) => None,
        Ok(_) => Some(create_proxy_request(client_ip, forward_url, request)),
    }
}

/// The upstream answer's headers as they are passed back to the client:
/// without the hop-by-hop ones.
pub fn create_response(headers: &Vec<Header>) -> (out: Vec<Header>)
    ensures
        headers_view(out@) == without_hop_headers(headers_view(headers@)),
{
    remove_hop_headers(headers)
}

/// What the upstream server is told: the client is appended to the
/// `x-forwarded-for` list (or starts it), every other end-to-end header keeps
/// all of its values in order, and no hop-by-hop header is passed on.
pub proof fn law_forwarded_headers(
    headers: Seq<(Seq<char>, Seq<u8>)>,
    client: Seq<u8>,
    key: Seq<char>,
)
    ensures
        header_values(with_forwarded_for(without_hop_headers(headers), client), key) == (if key
            == forwarded_for_name() {
            seq![
                match first_value(headers, key) {
                    Some(old) => old + seq![44u8, 32u8] + client,
                    None => client,
                },
            ]
        } else if is_hop_header_name(key) {
            Seq::<Seq<u8>>::empty()
        } else {
            header_values(headers, key)
        }),
        free_of_hop_headers(with_forwarded_for(without_hop_headers(headers), client)),
{
    let w = without_hop_headers(headers);
    lemma_filtered_first_value(headers);
    lemma_forwarded_for_not_hop();
    law_end_to_end_headers_kept(headers, key);
    law_hop_headers_never_forwarded(headers);
    lemma_set_header_values(w, forwarded_for_name(), forwarded_for_value(w, client), key);
    lemma_set_header_free(w, forwarded_for_name(), forwarded_for_value(w, client));
}

} // verus!
