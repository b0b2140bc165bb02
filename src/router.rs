//! Routing: from a request's path to the full response text.
//!
//! Two route tables are offered. The basic one answers a few fixed pages.
//! The site one answers `/api/` paths itself and serves every other path
//! from a file under `public`, whose contents the caller reads.
use vstd::prelude::*;
use crate::request::HttpRequest;
use crate::response::{format_response, response_text};

verus! {

/// The response of the JSON sub-router to a path under `/api/`.
pub open spec fn api_response(path: Seq<char>) -> Seq<char> {
    if path == "/api/hello"@ {
        response_text("200 Ok"@, "{\"message\":\"Hello ,Api\"}"@, "application/json"@)
    } else {
        response_text("404 Not Found"@, "{\"error\":\"Not found\"}"@, "application/json"@)
    }
}

/// The path is handled by the JSON sub-router.
pub open spec fn is_api_path(path: Seq<char>) -> bool {
    "/api/"@.is_prefix_of(path)
}

/// The file that serves a path: the path under `public`, and
/// `public/index.html` for the root.
pub open spec fn file_path_of(path: Seq<char>) -> Seq<char> {
    if path == "/"@ {
        "public/index.html"@
    } else {
        "public"@ + path
    }
}

/// The response of the site route table, given what reading the file of a
/// non-API path gave: its contents, or `None` when it could not be read.
pub open spec fn site_response(path: Seq<char>, file: Option<Seq<char>>) -> Seq<char> {
    if is_api_path(path) {
        api_response(path)
    } else {
        match file {
            Some(contents) => response_text("200 Ok"@, contents, "text/html"@),
            None => response_text(
                "404 Not Found"@,
                "<h1>404 - Page Not Found </h1>"@,
                "text/htlm"@,
            ),
        }
    }
}

/// The response of the basic route table.
pub open spec fn basic_response(path: Seq<char>) -> Seq<char> {
    if path == "/"@ {
        response_text("200 Ok"@, "Welcome to the Home Page!"@, "text/plain"@)
    } else if path == "/about"@ {
        response_text("200 Ok"@, "This is the About Page."@, "text/plain"@)
    } else if path == "/hello"@ {
        response_text("200 Ok"@, "Hello, World!"@, "text/plain"@)
    } else {
        response_text("404 Not Found"@, "404 - Page Not Found"@, "text/plain"@)
    }
}

/// Routing reads the path alone: two requests with one path, whatever their
/// methods, headers and bodies, get the same response from each route
/// table, call after call.
pub proof fn lemma_routing_depends_on_path_only(
    a: crate::request::RequestView,
    b: crate::request::RequestView,
    file: Option<Seq<char>>,
)
    requires
        a.path == b.path,
    ensures
        basic_response(a.path) == basic_response(b.path),
        site_response(a.path, file) == site_response(b.path, file),
        api_response(a.path) == api_response(b.path),
{
}

/// A path that no rule of a table knows gets that table's fixed
/// "not found" response: plain text from the basic table, JSON from the
/// API sub-router, and the HTML page from the site table when no file was
/// read.
pub proof fn lemma_unknown_path_not_found(path: Seq<char>)
    ensures
        path != "/"@ && path != "/about"@ && path != "/hello"@ ==> basic_response(path)
            == response_text("404 Not Found"@, "404 - Page Not Found"@, "text/plain"@),
        path != "/api/hello"@ ==> api_response(path) == response_text(
            "404 Not Found"@,
            "{\"error\":\"Not found\"}"@,
            "application/json"@,
        ),
        !is_api_path(path) ==> site_response(path, None) == response_text(
            "404 Not Found"@,
            "<h1>404 - Page Not Found </h1>"@,
            "text/htlm"@,
        ),
{
}

/// The view of an optional text.
pub open spec fn option_view(o: Option<&str>) -> Option<Seq<char>> {
    match o {
        Some(s) => Some(s@),
        None => None,
    }
}

/// Whether two texts are equal.
fn same_text(a: &str, b: &str) -> (r: bool)
    ensures
        r == (a@ == b@),
{
    a.to_owned() == b.to_owned()
}

/// Whether `path` starts with `prefix`.
fn has_prefix(path: &str, prefix: &str) -> (r: bool)
    ensures
        r == prefix@.is_prefix_of(path@),
{
    let n = prefix.unicode_len();
    if n > path.unicode_len() {
        return false;
    }
    same_text(path.substring_char(0, n), prefix)
}

/// Answers a request under `/api/`: `/api/hello` gets a greeting, any other
/// path a JSON "not found".
pub fn handle_api_request(request: &HttpRequest) -> (r: String)
    ensures
        r@ == api_response(request@.path),
{
    if same_text(request.path(), "/api/hello") {
        format_response("200 Ok", "{\"message\":\"Hello ,Api\"}", "application/json")
    } else {
        format_response("404 Not Found", "{\"error\":\"Not found\"}", "application/json")
    }
}

/// What the site route table needs before it can answer.
pub enum Target {
    /// The JSON sub-router answers; no file is read.
    Api,
    /// The contents of the file at this path are needed.
    File(String),
}

/// The path of the file that serves `path` (see `file_path_of`).
pub fn file_path(path: &str) -> (r: String)
    ensures
        r@ == file_path_of(path@),
{
    if same_text(path, "/") {
        "public/index.html".to_owned()
    } else {
        let mut p = "public".to_owned();
        p.append(path);
        p
    }
}

/// Decides whether a request goes to the JSON sub-router or needs a file,
/// and which one.
pub fn target(request: &HttpRequest) -> (r: Target)
    ensures
        is_api_path(request@.path) <==> r is Api,
        r matches Target::File(p) ==> p@ == file_path_of(request@.path),
{
    if has_prefix(request.path(), "/api/") {
        Target::Api
    } else {
        Target::File(file_path(request.path()))
    }
}

/// Answers a request from the site route table. `file` is what reading the
/// file that `target` named gave; it is not read for `/api/` paths.
pub fn handle_request(request: &HttpRequest, file: Option<&str>) -> (r: String)
    ensures
        r@ == site_response(request@.path, option_view(file)),
{
    if has_prefix(request.path(), "/api/") {
        return handle_api_request(request);
    }
    match file {
        Some(contents) => format_response("200 Ok", contents, "text/html"),
        None => format_response("404 Not Found", "<h1>404 - Page Not Found </h1>", "text/htlm"),
    }
}

/// Answers a request from the basic route table.
pub fn handle_basic_request(request: &HttpRequest) -> (r: String)
    ensures
        r@ == basic_response(request@.path),
{
    let path = request.path();
    if same_text(path, "/") {
        format_response("200 Ok", "Welcome to the Home Page!", "text/plain")
    } else if same_text(path, "/about") {
        format_response("200 Ok", "This is the About Page.", "text/plain")
    } else if same_text(path, "/hello") {
        format_response("200 Ok", "Hello, World!", "text/plain")
    } else {
        format_response("404 Not Found", "404 - Page Not Found", "text/plain")
    }
}

} // verus!
