//! Routing: from a request to what the server does next, and from the
//! outcome of a file operation to the response.

use crate::headers::same_text;
use crate::method::HttpMethod;
use crate::request::{HttpRequest, RequestView};
use crate::response::{bytes_of, text, HttpResponse, ResponseView};
use vstd::prelude::*;
use vstd::string::{StrSliceExecFns, StringExecFns};
use vstd::utf8::encode_utf8;

verus! {

/// What the server does next for a request.
#[derive(Debug, Clone)]
pub enum Action {
    /// Send this response.
    Respond(HttpResponse),
    /// Read the file at `path` and answer with `file_read_response`.
    ReadFile { path: String },
    /// Write `body` to the file at `path`, creating or truncating it, and
    /// answer with `file_write_response`.
    WriteFile { path: String, body: Vec<u8> },
}

/// The mathematical value of an action.
pub enum ActionView {
    Respond(ResponseView),
    ReadFile { path: Seq<char> },
    WriteFile { path: Seq<char>, body: Seq<u8> },
}

impl View for Action {
    type V = ActionView;

    open spec fn view(&self) -> ActionView {
        match *self {
            Action::Respond(r) => ActionView::Respond(r@),
            Action::ReadFile { path } => ActionView::ReadFile { path: path@ },
            Action::WriteFile { path, body } => ActionView::WriteFile { path: path@, body: body@ },
        }
    }
}

/// How reading a file ended.
#[derive(Debug, Clone, PartialEq, Eq)]
pub enum ReadOutcome {
    /// The file was read; these are its contents.
    Found(Vec<u8>),
    /// There is no such file.
    NotFound,
    /// Reading failed otherwise; this is the description of the failure.
    Failed(String),
}

/// How writing a file ended.
#[derive(Debug, Clone, PartialEq, Eq)]
pub enum WriteOutcome {
    /// The file was written.
    Written,
    /// The file or a directory on the way to it does not exist.
    NotFound,
    /// Writing failed otherwise; this is the description of the failure.
    Failed(String),
}

/// The response to a request that nothing matches.
pub open spec fn not_found() -> ResponseView {
    ResponseView::empty(404, text("Not Found"))
}

/// The response to bytes that are no request.
pub open spec fn bad_request() -> ResponseView {
    ResponseView::empty(400, text("Bad Request"))
}

/// The response to a file route when the file does not exist.
pub open spec fn file_not_found() -> ResponseView {
    ResponseView::with_text(404, text("Not Found"), text("File not found"))
}

/// The response to a failure, with its description as the body.
pub open spec fn server_error(message: Seq<char>) -> ResponseView {
    ResponseView::with_text(500, text("Internal Server Error"), encode_utf8(message))
}

/// The response of the echo route: the body is what follows `/echo/` in
/// the path.
pub open spec fn echo_view(path: Seq<char>) -> ResponseView {
    if "/echo/"@.is_prefix_of(path) {
        ResponseView::with_text(200, text("OK"), encode_utf8(path.skip("/echo/"@.len() as int)))
    } else {
        bad_request()
    }
}

/// The response of the user-agent route: the body is the value of the
/// header field `User-Agent`, or empty if there is no such field.
pub open spec fn user_agent_view(request: RequestView) -> ResponseView {
    let agent = if request.headers.contains_key("User-Agent"@) {
        request.headers["User-Agent"@]
    } else {
        Seq::empty()
    };
    ResponseView::with_text(200, text("OK"), encode_utf8(agent))
}

/// The place in the file system that the path of a file route names:
/// what follows `/files/`, below `directory`.
pub open spec fn file_path(directory: Seq<char>, path: Seq<char>) -> Seq<char> {
    directory + "/"@ + path.skip("/files/"@.len() as int)
}

/// The description of a failure to read or write the file at `path`.
pub open spec fn failure_message(doing: Seq<char>, path: Seq<char>, error: Seq<char>) -> Seq<
    char,
> {
    "Encountered error while trying to "@ + doing + " file ("@ + path + "): "@ + error
}

/// The response to a file route when no directory was configured.
pub open spec fn no_directory() -> ResponseView {
    server_error("No directory is configured for file routes"@)
}

/// What the file-read route does.
pub open spec fn get_file_view(path: Seq<char>, directory: Option<Seq<char>>) -> ActionView {
    if !"/files/"@.is_prefix_of(path) {
        ActionView::Respond(bad_request())
    } else {
        match directory {
            Some(d) => ActionView::ReadFile { path: file_path(d, path) },
            None => ActionView::Respond(no_directory()),
        }
    }
}

/// What the file-write route does.
pub open spec fn post_file_view(request: RequestView, directory: Option<Seq<char>>) -> ActionView {
    if !"/files/"@.is_prefix_of(request.path) {
        ActionView::Respond(bad_request())
    } else {
        match directory {
            Some(d) => ActionView::WriteFile {
                path: file_path(d, request.path),
                body: request.body,
            },
            None => ActionView::Respond(no_directory()),
        }
    }
}

/// What the server does for `request`. The rules, of which the first that
/// applies decides:
/// the path `/` gets an empty 200;
/// `GET /user-agent` gets the user agent;
/// a path that starts with `/files/` is read on `GET`, written on `POST`,
/// and gets an empty 404 on any other method;
/// a path that starts with `/echo/` is echoed;
/// anything else gets an empty 404.
pub open spec fn route_view(request: RequestView, directory: Option<Seq<char>>) -> ActionView {
    if request.path == "/"@ {
        ActionView::Respond(ResponseView::empty(200, text("OK")))
    } else if request.path == "/user-agent"@ && request.method == HttpMethod::Get {
        ActionView::Respond(user_agent_view(request))
    } else if "/files/"@.is_prefix_of(request.path) {
        match request.method {
            HttpMethod::Get => get_file_view(request.path, directory),
            HttpMethod::Post => post_file_view(request, directory),
            _ => ActionView::Respond(not_found()),
        }
    } else if "/echo/"@.is_prefix_of(request.path) {
        ActionView::Respond(echo_view(request.path))
    } else {
        ActionView::Respond(not_found())
    }
}

/// The response after the file at `path` was read, or was not.
pub open spec fn read_view(path: Seq<char>, outcome: ReadOutcome) -> ResponseView {
    match outcome {
        ReadOutcome::Found(content) => ResponseView::with_data(200, text("OK"), content@),
        ReadOutcome::NotFound => file_not_found(),
        ReadOutcome::Failed(error) => server_error(failure_message("read"@, path, error@)),
    }
}

/// The response after the file at `path` was written, or was not.
pub open spec fn write_view(path: Seq<char>, outcome: WriteOutcome) -> ResponseView {
    match outcome {
        WriteOutcome::Written => ResponseView::with_data(201, text("Created"), Seq::empty()),
        WriteOutcome::NotFound => file_not_found(),
        WriteOutcome::Failed(error) => server_error(failure_message("write to"@, path, error@)),
    }
}

/// The value of an optional piece of text.
pub open spec fn text_view(t: Option<&str>) -> Option<Seq<char>> {
    match t {
        Some(s) => Some(s@),
        None => None,
    }
}

/// What follows `prefix` in `s`, if `s` starts with `prefix`.
pub fn strip_prefix(s: &str, prefix: &str) -> (rest: Option<String>)
    ensures
        match rest {
            Some(r) => prefix@.is_prefix_of(s@) && r@ == s@.skip(prefix@.len() as int),
            None => !prefix@.is_prefix_of(s@),
        },
{
    let n = prefix.unicode_len();
    let len = s.unicode_len();
    if len < n {
        return None;
    }
    let mut i: usize = 0;
    while i < n
        invariant
            n == prefix@.len(),
            len == s@.len(),
            n <= len,
            i <= n,
            forall|j: int| 0 <= j < i ==> s@[j] == prefix@[j],
        decreases n - i,
    {
        if s.get_char(i) != prefix.get_char(i) {
            return None;
        }
        i = i + 1;
    }
    assert(prefix@ =~= s@.subrange(0, n as int));
    assert(s@.subrange(n as int, len as int) =~= s@.skip(n as int));
    Some(s.substring_char(n, len).to_owned())
}

/// The response of the echo route.
pub fn echo_response(path: &str) -> (r: HttpResponse)
    ensures
        r@ == echo_view(path@),
        r@.framed(),
{
    match strip_prefix(path, "/echo/") {
        Some(rest) => HttpResponse::with_text(200, bytes_of("OK"), bytes_of(rest.as_str())),
        None => HttpResponse::empty(400, bytes_of("Bad Request")),
    }
}

/// The response of the user-agent route.
pub fn user_agent_response(request: &HttpRequest) -> (r: HttpResponse)
    ensures
        r@ == user_agent_view(request@),
        r@.framed(),
{
    let body = match request.headers.get("User-Agent") {
        Some(agent) => bytes_of(agent.as_str()),
        None => {
            assert(encode_utf8(Seq::<char>::empty()) =~= Seq::<u8>::empty());
            Vec::new()
        },
    };
    HttpResponse::with_text(200, bytes_of("OK"), body)
}

/// The response to a failure with the description `message`.
pub fn error_response(message: &str) -> (r: HttpResponse)
    ensures
        r@ == server_error(message@),
        r@.framed(),
{
    HttpResponse::with_text(500, bytes_of("Internal Server Error"), bytes_of(message))
}

/// The place in the file system that `path` names below `directory`, or
/// the response that says why there is none.
fn locate(path: &str, directory: Option<&str>) -> (place: Result<String, HttpResponse>)
    ensures
        match place {
            Ok(p) => "/files/"@.is_prefix_of(path@) && directory is Some && p@ == file_path(
                directory.unwrap()@,
                path@,
            ),
            Err(r) => r@.framed() && if !"/files/"@.is_prefix_of(path@) {
                r@ == bad_request()
            } else {
                directory is None && r@ == no_directory()
            },
        },
{
    match strip_prefix(path, "/files/") {
        None => Err(HttpResponse::empty(400, bytes_of("Bad Request"))),
        Some(name) => match directory {
            None => Err(error_response("No directory is configured for file routes")),
            Some(d) => {
                let place = String::from_str(d).concat("/").concat(name.as_str());
                Ok(place)
            },
        },
    }
}

/// What the file-read route does for `request`.
pub fn get_file(request: &HttpRequest, directory: Option<&str>) -> (a: Action)
    ensures
        a@ == get_file_view(request@.path, text_view(directory)),
        a matches Action::Respond(r) ==> r@.framed(),
{
    match locate(request.path.as_str(), directory) {
        Ok(path) => Action::ReadFile { path },
        Err(r) => Action::Respond(r),
    }
}

/// What the file-write route does for `request`.
pub fn post_file(request: &HttpRequest, directory: Option<&str>) -> (a: Action)
    ensures
        a@ == post_file_view(request@, text_view(directory)),
        a matches Action::Respond(r) ==> r@.framed(),
{
    match locate(request.path.as_str(), directory) {
        Ok(path) => Action::WriteFile { path, body: request.body.clone() },
        Err(r) => Action::Respond(r),
    }
}

/// Decides what the server does for `request`.
pub fn route(request: &HttpRequest, directory: Option<&str>) -> (a: Action)
    ensures
        a@ == route_view(request@, text_view(directory)),
        a matches Action::Respond(r) ==> r@.framed(),
{
    let path = request.path.as_str();
    if same_text(path, "/") {
        Action::Respond(HttpResponse::empty(200, bytes_of("OK")))
    } else if same_text(path, "/user-agent") && request.method == HttpMethod::Get {
        Action::Respond(user_agent_response(request))
    } else if has_prefix(path, "/files/") {
        match request.method {
            HttpMethod::Get => get_file(request, directory),
            HttpMethod::Post => post_file(request, directory),
            _ => Action::Respond(HttpResponse::empty(404, bytes_of("Not Found"))),
        }
    } else if has_prefix(path, "/echo/") {
        Action::Respond(echo_response(path))
    } else {
        Action::Respond(HttpResponse::empty(404, bytes_of("Not Found")))
    }
}

/// Whether `s` starts with `prefix`.
pub fn has_prefix(s: &str, prefix: &str) -> (b: bool)
    ensures
        b == prefix@.is_prefix_of(s@),
{
    strip_prefix(s, prefix).is_some()
}

/// The description of a failure to read or write the file at `path`.
fn describe_failure(doing: &str, path: &str, error: &str) -> (message: String)
    ensures
        message@ == failure_message(doing@, path@, error@),
{
    String::from_str("Encountered error while trying to ").concat(doing).concat(" file (").concat(
        path,
    ).concat("): ").concat(error)
}

/// The response after the file at `path` was read, or was not.
pub fn file_read_response(path: &str, outcome: ReadOutcome) -> (r: HttpResponse)
    ensures
        r@ == read_view(path@, outcome),
        r@.framed(),
{
    match outcome {
        ReadOutcome::Found(content) => HttpResponse::with_data(200, bytes_of("OK"), content),
        ReadOutcome::NotFound => HttpResponse::with_text(
            404,
            bytes_of("Not Found"),
            bytes_of("File not found"),
        ),
        ReadOutcome::Failed(error) => {
            let message = describe_failure("read", path, error.as_str());
            error_response(message.as_str())
        },
    }
}

/// The response after the file at `path` was written, or was not.
pub fn file_write_response(path: &str, outcome: WriteOutcome) -> (r: HttpResponse)
    ensures
        r@ == write_view(path@, outcome),
        r@.framed(),
{
    match outcome {
        WriteOutcome::Written => HttpResponse::with_data(201, bytes_of("Created"), Vec::new()),
        WriteOutcome::NotFound => HttpResponse::with_text(
            404,
            bytes_of("Not Found"),
            bytes_of("File not found"),
        ),
        WriteOutcome::Failed(error) => {
            let message = describe_failure("write to", path, error.as_str());
            error_response(message.as_str())
        },
    }
}

} // verus!
