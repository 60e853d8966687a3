//! Choosing how a request is served from the configured locations.

use vstd::prelude::*;
use crate::config::{Cowconfig, Server};
use crate::pattern::{Pattern, regex_accepts, regex_finds};
use crate::response::{ResponsePlan, ResponseSpec, not_found_response, not_found_spec};

verus! {

/// Why the configured locations could not be searched.
#[derive(PartialEq, Eq, Structural, Debug, Clone, Copy)]
pub enum LocationError {
    /// The location at this index has no `pattern` setting.
    MissingPattern(usize),
    /// The `pattern` of the location at this index is not a valid regular
    /// expression.
    InvalidPattern(usize),
}

/// The search for the first location whose pattern matches `uri`, starting
/// at index `i`. Locations are tried in order; the first one without a
/// pattern, or with a pattern that does not compile, stops the search.
pub open spec fn locate_from(servers: Seq<Server>, uri: Seq<char>, i: int) -> Result<
    Option<usize>,
    LocationError,
>
    decreases servers.len() - i,
{
    if i < 0 || i >= servers.len() {
        Ok(None)
    } else {
        match servers[i].setting("pattern"@) {
            None => Err(LocationError::MissingPattern(i as usize)),
            Some(p) => if !regex_accepts(p) {
                Err(LocationError::InvalidPattern(i as usize))
            } else if regex_finds(p, uri) {
                Ok(Some(i as usize))
            } else {
                locate_from(servers, uri, i + 1)
            },
        }
    }
}

/// The index of the first location whose pattern matches `uri`.
pub open spec fn locate(servers: Seq<Server>, uri: Seq<char>) -> Result<Option<usize>, LocationError> {
    locate_from(servers, uri, 0)
}

/// The location at index `j` has a valid pattern that does not match `uri`.
pub open spec fn passes_over(servers: Seq<Server>, uri: Seq<char>, j: int) -> bool {
    servers[j].setting("pattern"@) matches Some(p) && regex_accepts(p) && !regex_finds(p, uri)
}

/// The location at index `j` has a valid pattern that matches `uri`.
pub open spec fn matches_at(servers: Seq<Server>, uri: Seq<char>, j: int) -> bool {
    servers[j].setting("pattern"@) matches Some(p) && regex_accepts(p) && regex_finds(p, uri)
}

proof fn lemma_locate_from(servers: Seq<Server>, uri: Seq<char>, k: int)
    requires
        0 <= k <= servers.len() <= usize::MAX,
    ensures
        locate_from(servers, uri, k) matches Ok(Some(i)) ==> k <= i < servers.len() && matches_at(
            servers,
            uri,
            i as int,
        ) && forall|j: int| k <= j < i ==> #[trigger] passes_over(servers, uri, j),
        locate_from(servers, uri, k) matches Ok(None) ==> forall|j: int|
            k <= j < servers.len() ==> #[trigger] passes_over(servers, uri, j),
    decreases servers.len() - k,
{
    if k < servers.len() {
        lemma_locate_from(servers, uri, k + 1);
        match servers[k].setting("pattern"@) {
            Some(p) => {
                if regex_accepts(p) && !regex_finds(p, uri) {
                    assert(passes_over(servers, uri, k));
                    assert(locate_from(servers, uri, k) == locate_from(servers, uri, k + 1));
                }
            },
            None => {},
        }
    }
}

/// The location a request goes to is the first whose pattern matches: its
/// pattern matches, and every location before it has a valid pattern that
/// does not. (The locations are held in a vector, so they can be counted.)
pub proof fn law_first_matching_location(servers: Seq<Server>, uri: Seq<char>, i: usize)
    requires
        servers.len() <= usize::MAX,
        locate(servers, uri) == Ok::<Option<usize>, LocationError>(Some(i)),
    ensures
        i < servers.len(),
        matches_at(servers, uri, i as int),
        forall|j: int| 0 <= j < i ==> #[trigger] passes_over(servers, uri, j),
{
    lemma_locate_from(servers, uri, 0);
}

/// When no location is found, every location has a valid pattern and none
/// matches.
pub proof fn law_no_matching_location(servers: Seq<Server>, uri: Seq<char>)
    requires
        servers.len() <= usize::MAX,
        locate(servers, uri) == Ok::<Option<usize>, LocationError>(None),
    ensures
        forall|j: int| 0 <= j < servers.len() ==> #[trigger] passes_over(servers, uri, j),
{
    lemma_locate_from(servers, uri, 0);
}

/// What one location decides in the search, from whether it has a pattern,
/// whether the pattern compiles and whether it matches: `Some` ends the
/// search with that result, `None` goes on to the next location.
pub open spec fn location_verdict_spec(index: usize, has_pattern: bool, compiles: bool, matches: bool) -> Option<
    Result<Option<usize>, LocationError>,
> {
    if !has_pattern {
        Some(Err(LocationError::MissingPattern(index)))
    } else if !compiles {
        Some(Err(LocationError::InvalidPattern(index)))
    } else if matches {
        Some(Ok(Some(index)))
    } else {
        None
    }
}

/// Every location has a pattern that compiles.
pub open spec fn all_patterns_valid(servers: Seq<Server>) -> bool {
    forall|j: int|
        0 <= j < servers.len() ==> (#[trigger] servers[j].setting("pattern"@) matches Some(p)
            && regex_accepts(p))
}

proof fn lemma_valid_locate_from(servers: Seq<Server>, uri: Seq<char>, k: int)
    requires
        all_patterns_valid(servers),
        0 <= k <= servers.len(),
    ensures
        locate_from(servers, uri, k) is Ok,
    decreases servers.len() - k,
{
    if k < servers.len() {
        lemma_valid_locate_from(servers, uri, k + 1);
        assert(servers[k].setting("pattern"@) matches Some(p) && regex_accepts(p));
    }
}

/// Routing fails only on a broken location: when every location has a
/// pattern that compiles, the search for a location always succeeds, and a
/// request is always given a route.
pub proof fn law_routing_succeeds_on_valid_locations(servers: Seq<Server>, uri: Seq<char>)
    requires
        all_patterns_valid(servers),
    ensures
        locate(servers, uri) is Ok,
{
    lemma_valid_locate_from(servers, uri, 0);
}

/// Decides the search at one location, given what its pattern gave.
pub fn location_verdict(index: usize, has_pattern: bool, compiles: bool, matches: bool) -> (verdict:
    Option<Result<Option<usize>, LocationError>>)
    ensures
        verdict == location_verdict_spec(index, has_pattern, compiles, matches),
{
    if !has_pattern {
        Some(Err(LocationError::MissingPattern(index)))
    } else if !compiles {
        Some(Err(LocationError::InvalidPattern(index)))
    } else if matches {
        Some(Ok(Some(index)))
    } else {
        None
    }
}

/// Finds the first location whose pattern matches the request path.
pub fn find_locatiton(servers: &Vec<Server>, uri: &str) -> (found: Result<Option<usize>, LocationError>)
    ensures
        found == locate(servers@, uri@),
        found matches Ok(Some(i)) ==> i < servers@.len(),
{
    let n = servers.len();
    for i in 0..n
        invariant
            n == servers@.len(),
            locate(servers@, uri@) == locate_from(servers@, uri@, i as int),
    {
        let verdict = match servers[i].get("pattern") {
            None => location_verdict(i, false, false, false),
            Some(source) => match Pattern::compile(source.as_str()) {
                None => location_verdict(i, true, false, false),
                Some(pattern) => {
                    let matched = pattern.is_match(uri);
                    location_verdict(i, true, true, matched)
                },
            },
        };
        match verdict {
            Some(result) => {
                return result;
            },
            None => {},
        }
    }
    Ok(None)
}

/// How a request is to be served.
#[derive(Debug)]
pub enum Route {
    /// Serve a file from the configured root directory.
    ServeStatic,
    /// Forward the request upstream, naming `client_ip` as the client.
    Proxy { client_ip: String, forward_url: String },
    /// Answer directly with this response.
    Respond(ResponsePlan),
}

/// The abstract value of a route.
pub enum RouteSpec {
    ServeStatic,
    Proxy { client_ip: Seq<char>, forward_url: Seq<char> },
    Respond(ResponseSpec),
}

impl View for Route {
    type V = RouteSpec;

    open spec fn view(&self) -> RouteSpec {
        match self {
            Route::ServeStatic => RouteSpec::ServeStatic,
            Route::Proxy { client_ip, forward_url } => RouteSpec::Proxy {
                client_ip: client_ip@,
                forward_url: forward_url@,
            },
            Route::Respond(r) => RouteSpec::Respond(r@),
        }
    }
}

/// The address that proxied requests name as their client.
pub open spec fn proxy_client_ip() -> Seq<char> {
    "127.0.0.1"@
}

/// The upstream address of a location whose `proxy_pass` is `pass`.
pub open spec fn upstream_for(pass: Seq<char>) -> Seq<char> {
    "http://"@ + pass
}

/// The route for a request to `uri`, given the location that matched it:
/// a location with `static_path` serves files, otherwise one with
/// `proxy_pass` forwards to `http://` followed by that setting, and anything
/// else is answered `not found`.
pub open spec fn route_for(servers: Seq<Server>, found: Option<usize>) -> RouteSpec {
    match found {
        Some(i) if i < servers.len() && servers[i as int].setting("static_path"@) is Some => {
            RouteSpec::ServeStatic
        },
        Some(i) if i < servers.len() && servers[i as int].setting("proxy_pass"@) is Some => {
            RouteSpec::Proxy {
                client_ip: proxy_client_ip(),
                forward_url: upstream_for(servers[i as int].setting("proxy_pass"@).unwrap()),
            }
        },
        _ => RouteSpec::Respond(not_found_spec()),
    }
}

/// A found location with a `static_path` setting, whatever its value, is
/// served from files; one without it but with `proxy_pass` is forwarded to
/// `http://` followed by that setting, naming `127.0.0.1` as the client; a
/// found location with neither, or no location at all, is answered
/// `not found`.
pub proof fn law_route_by_settings(servers: Seq<Server>, i: usize)
    requires
        i < servers.len(),
    ensures
        servers[i as int].setting("static_path"@) is Some ==> route_for(servers, Some(i))
            == RouteSpec::ServeStatic,
        servers[i as int].setting("static_path"@) is None ==> (servers[i as int].setting(
            "proxy_pass"@,
        ) matches Some(pass) ==> route_for(servers, Some(i)) == (RouteSpec::Proxy {
            client_ip: "127.0.0.1"@,
            forward_url: "http://"@ + pass,
        })),
        servers[i as int].setting("static_path"@) is None && servers[i as int].setting(
            "proxy_pass"@,
        ) is None ==> route_for(servers, Some(i)) == RouteSpec::Respond(not_found_spec()),
        route_for(servers, None) == RouteSpec::Respond(not_found_spec()),
{
}

/// Decides how a request for `uri_path` is served under `config`.
pub fn parser_request(config: &Cowconfig, uri_path: &str) -> (route: Result<Route, LocationError>)
    ensures
        match locate(config.server@, uri_path@) {
            Err(e) => route == Err::<Route, LocationError>(e),
            Ok(found) => route matches Ok(r) && r@ == route_for(config.server@, found),
        },
{
    match find_locatiton(&config.server, uri_path) {
        Err(e) => Err(e),
        Ok(None) => Ok(Route::Respond(not_found_response())),
        Ok(Some(i)) => {
            let location = &config.server[i];
            if location.contains_key("static_path") {
                Ok(Route::ServeStatic)
            } else {
                match location.get("proxy_pass") {
                    Some(pass) => {
                        let mut forward_url = String::from_str("http://");
                        forward_url.append(pass.as_str());
                        Ok(
                            Route::Proxy {
                                client_ip: String::from_str("127.0.0.1"),
                                forward_url,
                            },
                        )
                    },
                    None => Ok(Route::Respond(not_found_response())),
                }
            }
        },
    }
}

} // verus!
