//! Serving files from the root directory, as a sequence of steps: the
//! library decides, the executable looks at the file system in between.

use vstd::prelude::*;
use crate::paths::{
    request_local_path,
    local_path_for_request,
    pushed_path,
    push_path,
    file_path_mime,
    mime_for_extension,
    path_extension,
    segment_start,
    file_name,
    last_dot,
    name_extension,
};
use crate::response::{
    HeaderSpec,
    ResponseHeader,
    ResponsePlan,
    ResponseSpec,
    MimeType,
    not_found_response,
    not_found_spec,
    server_tag,
};

verus! {

broadcast use vstd::string::group_string_axioms;

/// Where serving a static file stands.
#[derive(Debug)]
pub enum StaticState {
    /// Nothing done yet.
    Start,
    /// Waiting to learn whether `local` is a directory, to redirect to it.
    RedirectCheck { local: String },
    /// Waiting to learn whether `local` is a directory, to serve its index.
    IndexCheck { local: String },
    /// Waiting for the contents of `file`.
    Reading { file: String },
    /// The answer has been given.
    Finished,
}

/// What the executable reports back.
#[derive(Debug)]
pub enum StaticEvent {
    /// Start serving.
    Begin,
    /// Whether the path asked about is a directory.
    IsDir(bool),
    /// The contents of the file asked for, or `None` when it could not be read.
    FileRead(Option<Vec<u8>>),
}

/// What the executable is to do next.
#[derive(Debug)]
pub enum StaticAction {
    /// Find out whether this path is a directory.
    CheckDir(String),
    /// Read this file.
    ReadFile(String),
    /// Send this response; serving is over.
    Respond(ResponsePlan),
}

/// The abstract value of a state.
pub enum StaticStateSpec {
    Start,
    RedirectCheck(Seq<char>),
    IndexCheck(Seq<char>),
    Reading(Seq<char>),
    Finished,
}

/// The abstract value of an event.
pub enum StaticEventSpec {
    Begin,
    IsDir(bool),
    FileRead(Option<Seq<u8>>),
}

/// The abstract value of an action.
pub enum StaticActionSpec {
    CheckDir(Seq<char>),
    ReadFile(Seq<char>),
    Respond(ResponseSpec),
}

impl View for StaticState {
    type V = StaticStateSpec;

    open spec fn view(&self) -> StaticStateSpec {
        match self {
            StaticState::Start => StaticStateSpec::Start,
            StaticState::RedirectCheck { local } => StaticStateSpec::RedirectCheck(local@),
            StaticState::IndexCheck { local } => StaticStateSpec::IndexCheck(local@),
            StaticState::Reading { file } => StaticStateSpec::Reading(file@),
            StaticState::Finished => StaticStateSpec::Finished,
        }
    }
}

impl View for StaticEvent {
    type V = StaticEventSpec;

    open spec fn view(&self) -> StaticEventSpec {
        match self {
            StaticEvent::Begin => StaticEventSpec::Begin,
            StaticEvent::IsDir(d) => StaticEventSpec::IsDir(*d),
            StaticEvent::FileRead(Some(b)) => StaticEventSpec::FileRead(Some(b@)),
            StaticEvent::FileRead(None) => StaticEventSpec::FileRead(None),
        }
    }
}

impl View for StaticAction {
    type V = StaticActionSpec;

    open spec fn view(&self) -> StaticActionSpec {
        match self {
            StaticAction::CheckDir(p) => StaticActionSpec::CheckDir(p@),
            StaticAction::ReadFile(p) => StaticActionSpec::ReadFile(p@),
            StaticAction::Respond(r) => StaticActionSpec::Respond(r@),
        }
    }
}

/// Whether a path ends in `/`.
pub open spec fn ends_with_slash(path: Seq<char>) -> bool {
    path.len() > 0 && path.last() == '/'
}

/// Where a request for a directory without the final `/` is sent: the same
/// path with `/` added, and the query kept.
pub open spec fn redirect_location(path: Seq<char>, query: Option<Seq<char>>) -> Seq<char> {
    match query {
        Some(q) => path + seq!['/', '?'] + q,
        None => path + seq!['/'],
    }
}

/// The redirect to a directory's path with `/` added: status 302.
pub open spec fn redirect_spec(path: Seq<char>, query: Option<Seq<char>>) -> ResponseSpec {
    ResponseSpec {
        status: 302,
        headers: seq![HeaderSpec::Location(redirect_location(path, query))],
        body: seq![],
    }
}

/// A file's contents served with status 200, their length, the media type
/// of the file's extension and the server tag.
pub open spec fn file_response_spec(file: Seq<char>, body: Seq<u8>) -> ResponseSpec {
    ResponseSpec {
        status: 200,
        headers: seq![
            HeaderSpec::ContentLength(body.len() as u64),
            HeaderSpec::ContentType(mime_for_extension(path_extension(file))),
            server_tag(),
        ],
        body,
    }
}

/// The file served for a local path: a directory's `index.html`, or the
/// path itself.
pub open spec fn index_target(local: Seq<char>, is_dir: bool) -> Seq<char> {
    if is_dir {
        pushed_path(local, "index.html"@)
    } else {
        local
    }
}

/// The step that looks for the file itself: a path that names nothing is
/// answered `not found`, otherwise the executable is asked whether the
/// local path is a directory.
pub open spec fn index_step(path: Seq<char>, root: Seq<char>) -> (StaticStateSpec, StaticActionSpec) {
    match request_local_path(path, root) {
        None => (StaticStateSpec::Finished, StaticActionSpec::Respond(not_found_spec())),
        Some(p) => (StaticStateSpec::IndexCheck(p), StaticActionSpec::CheckDir(p)),
    }
}

/// One step of serving `path` (with `query`) from `root`.
pub open spec fn static_step(
    path: Seq<char>,
    query: Option<Seq<char>>,
    root: Seq<char>,
    state: StaticStateSpec,
    event: StaticEventSpec,
) -> (StaticStateSpec, StaticActionSpec) {
    match (state, event) {
        (StaticStateSpec::Start, StaticEventSpec::Begin) => if !ends_with_slash(path) {
            match request_local_path(path, root) {
                None => (StaticStateSpec::Finished, StaticActionSpec::Respond(not_found_spec())),
                Some(p) => (StaticStateSpec::RedirectCheck(p), StaticActionSpec::CheckDir(p)),
            }
        } else {
            index_step(path, root)
        },
        (StaticStateSpec::RedirectCheck(_), StaticEventSpec::IsDir(true)) => (
            StaticStateSpec::Finished,
            StaticActionSpec::Respond(redirect_spec(path, query)),
        ),
        (StaticStateSpec::RedirectCheck(_), StaticEventSpec::IsDir(false)) => index_step(path, root),
        (StaticStateSpec::IndexCheck(p), StaticEventSpec::IsDir(d)) => (
            StaticStateSpec::Reading(index_target(p, d)),
            StaticActionSpec::ReadFile(index_target(p, d)),
        ),
        (StaticStateSpec::Reading(f), StaticEventSpec::FileRead(Some(b))) => (
            StaticStateSpec::Finished,
            StaticActionSpec::Respond(file_response_spec(f, b)),
        ),
        _ => (StaticStateSpec::Finished, StaticActionSpec::Respond(not_found_spec())),
    }
}

fn ends_with_slash_exec(path: &str) -> (slash: bool)
    ensures
        slash == ends_with_slash(path@),
{
    !path.is_empty() && path.get_char(path.unicode_len() - 1) == '/'
}

/// The 302 answer that sends a directory request to the path with `/`.
fn redirect_response(path: &str, query: Option<&str>) -> (r: ResponsePlan)
    ensures
        r@ == redirect_spec(path@, match query {
            Some(q) => Some(q@),
            None => None,
        }),
{
    let mut location = String::from_str(path);
    location.append("/");
    proof {
        reveal_strlit("/");
        reveal_strlit("?");
    }
    match query {
        Some(q) => {
            location.append("?");
            location.append(q);
            assert(location@ =~= path@ + seq!['/', '?'] + q@);
        },
        None => {
            assert(location@ =~= path@ + seq!['/']);
        },
    }
    let mut headers: Vec<ResponseHeader> = Vec::new();
    headers.push(ResponseHeader::Location(location));
    let r = ResponsePlan { status: 302, headers, body: Vec::new() };
    assert(r@.headers =~= redirect_spec(path@, match query {
        Some(q) => Some(q@),
        None => None,
    }).headers);
    r
}

/// Makes the response that serves a file's contents.
pub fn respond_with_file(file: &str, body: Vec<u8>) -> (r: ResponsePlan)
    ensures
        r@ == file_response_spec(file@, body@),
{
    let mime = file_path_mime(file);
    let mut headers: Vec<ResponseHeader> = Vec::new();
    headers.push(ResponseHeader::ContentLength(body.len() as u64));
    headers.push(ResponseHeader::ContentType(mime));
    headers.push(ResponseHeader::Named(String::from_str("cow"), String::from_str("0.0.1")));
    let r = ResponsePlan { status: 200, headers, body };
    assert(r@.headers =~= file_response_spec(file@, body@).headers);
    r
}

/// The file to read for a local path: its `index.html` when it is a
/// directory.
pub fn local_path_with_maybe_index(local: &str, is_dir: bool) -> (file: String)
    ensures
        file@ == index_target(local@, is_dir),
{
    if is_dir {
        push_path(local, "index.html")
    } else {
        String::from_str(local)
    }
}

fn index_step_exec(uri_path: &str, root_dir: &str) -> (out: (StaticState, StaticAction))
    ensures
        (out.0@, out.1@) == index_step(uri_path@, root_dir@),
{
    match local_path_for_request(uri_path, root_dir) {
        None => (StaticState::Finished, StaticAction::Respond(not_found_response())),
        Some(p) => {
            let q = p.clone();
            (StaticState::IndexCheck { local: p }, StaticAction::CheckDir(q))
        },
    }
}

/// One step of serving the request path `uri_path` (with `query`) from
/// `root_dir`: given where serving stands and what the executable reported,
/// where it stands next and what the executable is to do.
pub fn serve_static(
    uri_path: &str,
    query: Option<&str>,
    root_dir: &str,
    state: StaticState,
    event: StaticEvent,
) -> (next: (StaticState, StaticAction))
    ensures
        (next.0@, next.1@) == static_step(uri_path@, match query {
            Some(q) => Some(q@),
            None => None,
        }, root_dir@, state@, event@),
{
    match (state, event) {
        (StaticState::Start, StaticEvent::Begin) => {
            if !ends_with_slash_exec(uri_path) {
                match local_path_for_request(uri_path, root_dir) {
                    None => (StaticState::Finished, StaticAction::Respond(not_found_response())),
                    Some(p) => {
                        let q = p.clone();
                        (StaticState::RedirectCheck { local: p }, StaticAction::CheckDir(q))
                    },
                }
            } else {
                index_step_exec(uri_path, root_dir)
            }
        },
        (StaticState::RedirectCheck { .. }, StaticEvent::IsDir(true)) => {
            (StaticState::Finished, StaticAction::Respond(redirect_response(uri_path, query)))
        },
        (StaticState::RedirectCheck { .. }, StaticEvent::IsDir(false)) => {
            index_step_exec(uri_path, root_dir)
        },
        (StaticState::IndexCheck { local }, StaticEvent::IsDir(d)) => {
            let file = local_path_with_maybe_index(local.as_str(), d);
            let again = file.clone();
            (StaticState::Reading { file }, StaticAction::ReadFile(again))
        },
        (StaticState::Reading { file }, StaticEvent::FileRead(Some(body))) => {
            let r = respond_with_file(file.as_str(), body);
            (StaticState::Finished, StaticAction::Respond(r))
        },
        _ => (StaticState::Finished, StaticAction::Respond(not_found_response())),
    }
}


/// How far a state is from the answer: each step moves closer.
pub open spec fn steps_left(state: StaticStateSpec) -> nat {
    match state {
        StaticStateSpec::Start => 4,
        StaticStateSpec::RedirectCheck(_) => 3,
        StaticStateSpec::IndexCheck(_) => 2,
        StaticStateSpec::Reading(_) => 1,
        StaticStateSpec::Finished => 0,
    }
}

/// Serving always ends with an answer: every step either sends a response
/// and finishes, or asks the executable something and gets closer to the
/// end, so whatever the executable reports, at most four steps pass before
/// a response is sent.
pub proof fn law_static_serving_answers(
    path: Seq<char>,
    query: Option<Seq<char>>,
    root: Seq<char>,
    state: StaticStateSpec,
    event: StaticEventSpec,
)
    ensures
        (static_step(path, query, root, state, event).0 is Finished) <==> (static_step(
            path,
            query,
            root,
            state,
            event,
        ).1 is Respond),
        state is Finished || steps_left(static_step(path, query, root, state, event).0)
            < steps_left(state),
{
}

/// Every response given while serving files that states a content length
/// states the length of its body. (File contents are held in memory, so
/// their length fits in 64 bits.)
pub proof fn law_static_content_length(
    path: Seq<char>,
    query: Option<Seq<char>>,
    root: Seq<char>,
    state: StaticStateSpec,
    event: StaticEventSpec,
)
    requires
        event matches StaticEventSpec::FileRead(Some(b)) ==> b.len() <= u64::MAX,
    ensures
        static_step(path, query, root, state, event).1 matches StaticActionSpec::Respond(r) ==> (
        forall|i: int|
            0 <= i < r.headers.len() ==> (#[trigger] r.headers[i] matches HeaderSpec::ContentLength(
                n,
            ) ==> n == r.body.len())),
{
    let nf = not_found_spec();
    assert(nf.headers.len() == 1 && nf.headers[0] == server_tag());
    match (state, event) {
        (StaticStateSpec::RedirectCheck(_), StaticEventSpec::IsDir(true)) => {
            let r = redirect_spec(path, query);
            assert(r.headers.len() == 1 && r.headers[0] is Location);
        },
        (StaticStateSpec::Reading(f), StaticEventSpec::FileRead(Some(b))) => {
            let r = file_response_spec(f, b);
            assert(r.headers.len() == 3);
            assert(r.headers[0] == HeaderSpec::ContentLength(b.len() as u64));
            assert(r.headers[1] is ContentType);
            assert(r.headers[2] == server_tag());
        },
        _ => {},
    }
}

/// Serving files answers in one of three ways only: the `not found`
/// answer, the redirect of the requested path to the same path with `/`,
/// or a file's contents served with status 200.
pub proof fn law_static_answers(
    path: Seq<char>,
    query: Option<Seq<char>>,
    root: Seq<char>,
    state: StaticStateSpec,
    event: StaticEventSpec,
)
    ensures
        static_step(path, query, root, state, event).1 matches StaticActionSpec::Respond(r) ==> (
        r == not_found_spec() || r == redirect_spec(path, query) || exists|
            file: Seq<char>,
            body: Seq<u8>,
        | r == file_response_spec(file, body)),
{
    match (state, event) {
        (StaticStateSpec::Reading(f), StaticEventSpec::FileRead(Some(b))) => {
            assert(static_step(path, query, root, state, event).1 == StaticActionSpec::Respond(
                file_response_spec(f, b),
            ));
        },
        _ => {},
    }
}

/// A file's response depends on its contents only through the body and
/// its length: status 200, the length of the contents, the media type of
/// the file's path alone, and the server tag; two files at the same path
/// get the same type whatever they hold.
pub proof fn law_file_type_from_path_only(file: Seq<char>, body: Seq<u8>, other: Seq<u8>)
    requires
        body.len() <= u64::MAX,
    ensures
        file_response_spec(file, body).status == 200,
        file_response_spec(file, body).body == body,
        file_response_spec(file, body).headers.len() == 3,
        file_response_spec(file, body).headers[0] == HeaderSpec::ContentLength(body.len() as u64),
        file_response_spec(file, body).headers[0] matches HeaderSpec::ContentLength(n) && n
            == body.len(),
        file_response_spec(file, body).headers[1] == HeaderSpec::ContentType(
            mime_for_extension(path_extension(file)),
        ),
        file_response_spec(file, body).headers[1] == file_response_spec(file, other).headers[1],
        file_response_spec(file, body).headers[2] == HeaderSpec::Named("cow"@, "0.0.1"@),
{
}

proof fn lemma_segment_start_append(x: Seq<char>, w: Seq<char>)
    requires
        forall|i: int| 0 <= i < w.len() ==> w[i] != '/',
    ensures
        segment_start(x + w) == segment_start(x),
    decreases w.len(),
{
    if w.len() == 0 {
        assert(x + w =~= x);
    } else {
        assert((x + w).drop_last() =~= x + w.drop_last());
        assert((x + w).last() == w[w.len() - 1]);
        lemma_segment_start_append(x, w.drop_last());
    }
}

proof fn lemma_last_dot_after(a: Seq<char>, b: Seq<char>)
    requires
        forall|i: int| 0 <= i < b.len() ==> b[i] != '.',
    ensures
        last_dot(a + seq!['.'] + b) == a.len(),
    decreases b.len(),
{
    let w = a + seq!['.'] + b;
    if b.len() == 0 {
        assert(w.last() == '.');
        assert(w.len() == a.len() + 1);
    } else {
        assert(w.drop_last() =~= a + seq!['.'] + b.drop_last());
        assert(w.last() == b[b.len() - 1]);
        lemma_last_dot_after(a, b.drop_last());
    }
}

/// The extension of a file is what follows the last `.` of its name: for a
/// name without `/` or `.` and an extension without them, the file
/// `dir/name.ext` has the extension `ext`, letter for letter, whatever the
/// directory.
pub proof fn law_extension_of_file(dir: Seq<char>, name: Seq<char>, ext: Seq<char>)
    requires
        name.len() > 0,
        forall|i: int| 0 <= i < name.len() ==> name[i] != '/' && name[i] != '.',
        forall|i: int| 0 <= i < ext.len() ==> ext[i] != '/' && ext[i] != '.',
    ensures
        path_extension(dir + seq!['/'] + name + seq!['.'] + ext) == Some(ext),
{
    let x = dir + seq!['/'];
    let w = name + seq!['.'] + ext;
    let full = dir + seq!['/'] + name + seq!['.'] + ext;
    assert(full =~= x + w);
    assert forall|i: int| 0 <= i < w.len() implies w[i] != '/' by {
        if i < name.len() {
            assert(w[i] == name[i]);
        } else if i > name.len() {
            assert(w[i] == ext[i - name.len() - 1]);
        }
    }
    assert(x.last() == '/');
    assert(segment_start(x) == x.len());
    lemma_segment_start_append(x, w);
    assert(full.last() == w[w.len() - 1]);
    assert(full.subrange(x.len() as int, full.len() as int) =~= w);
    assert(w != seq!['.']) by {
        assert(w.len() >= 2);
    }
    assert(w != seq!['.', '.']) by {
        assert(w[0] == name[0]);
    }
    assert(file_name(full) == Some(w));
    lemma_last_dot_after(name, ext);
    assert(w.subrange(name.len() + 1 as int, w.len() as int) =~= ext);
}

/// A directory is answered with its `index.html`, and that file is served
/// as HTML, whatever the directory's path.
pub proof fn law_directory_index_is_html(local: Seq<char>)
    ensures
        mime_for_extension(path_extension(index_target(local, true))) == MimeType::TextHtml,
{
    reveal_strlit("index.html");
    let w = "index.html"@;
    assert(w =~= seq!['i', 'n', 'd', 'e', 'x', '.', 'h', 't', 'm', 'l']);
    let x = if local.len() > 0 && local.last() != '/' {
        local + seq!['/']
    } else {
        local
    };
    let full = index_target(local, true);
    assert(full =~= x + w);
    assert(segment_start(x) == x.len()) by {
        if x.len() > 0 {
            assert(x.last() == '/');
        }
    }
    lemma_segment_start_append(x, w);
    assert(full.last() == 'l');
    assert(full.subrange(x.len() as int, full.len() as int) =~= w);
    assert(file_name(full) == Some(w));
    reveal_with_fuel(last_dot, 6);
    assert(w.drop_last().drop_last().drop_last().drop_last() =~= seq!['i', 'n', 'd', 'e', 'x', '.']);
    assert(last_dot(w) == 5);
    assert(w.subrange(6, 10) =~= seq!['h', 't', 'm', 'l']);
    assert(name_extension(w) == Some(seq!['h', 't', 'm', 'l']));
}

} // verus!
