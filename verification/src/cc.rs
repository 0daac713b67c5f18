//! The handlers: what the server answers to each kind of request.
//!
//! Reading and writing files is done elsewhere. The handlers for files say
//! which file is meant, and make the response from what became of it.

use crate::h1::{Content, ContentView, Method, Request, RequestView, Response, ResponseView};
use crate::headers::lookup;
use crate::text::{begins_with, same_text, segment, segment_after, starts_with};
use vstd::prelude::*;
use vstd::string::*;

verus! {

/// What is shared by all connections.
#[derive(Debug)]
pub struct Config {
    /// The directory under which files are served and stored, given as the
    /// text that is put before a file's name.
    pub directory: Option<String>,
}

/// The model of a [`Config`].
pub struct ConfigView {
    pub directory: Option<Seq<char>>,
}

impl View for Config {
    type V = ConfigView;

    open spec fn view(&self) -> ConfigView {
        ConfigView {
            directory: match self.directory {
                Some(dir) => Some(dir@),
                None => None,
            },
        }
    }
}

/// The response with that status and that text.
pub open spec fn text_response(status: u16, text: Seq<char>) -> ResponseView {
    ResponseView::plain(status, ContentView::Text(text))
}

/// The answer to a request for its own user agent: the value of the field
/// `User-Agent`, or status 400 where the request has none.
pub open spec fn user_agent_response(request: RequestView) -> ResponseView {
    match lookup(request.headers, "User-Agent"@) {
        Some(agent) => text_response(200, agent),
        None => text_response(400, "No user agent found"@),
    }
}

/// The answer to a request for an echo: what stands after `/echo/` in its
/// target, up to the next `/echo/` if there is one, or status 400 where the
/// target holds no `/echo/`.
pub open spec fn echo_response(request: RequestView) -> ResponseView {
    match segment_after(request.uri, "/echo/"@) {
        Some(message) => text_response(200, message),
        None => text_response(400, "No string found"@),
    }
}

/// The file that a request names: the configured directory and, straight
/// after it, what stands after `/files/` in the target. Where there is no
/// such file, the response that says so.
pub open spec fn file_target(config: ConfigView, request: RequestView) -> Result<
    Seq<char>,
    ResponseView,
> {
    match segment_after(request.uri, "/files/"@) {
        None => Err(text_response(400, "No filename found"@)),
        Some(name) => match config.directory {
            None => Err(text_response(404, "No file directory found"@)),
            Some(dir) => Ok(dir + name),
        },
    }
}

/// The answer to a request for a file, where `file` is what reading the file
/// gave: its bytes, or nothing if it could not be read.
pub open spec fn files_response(
    config: ConfigView,
    request: RequestView,
    file: Option<Seq<u8>>,
) -> ResponseView {
    match file_target(config, request) {
        Err(response) => response,
        Ok(_) => match file {
            Some(bytes) => ResponseView::plain(200, ContentView::Bytes(bytes)),
            None => text_response(404, "File not found"@),
        },
    }
}

/// The answer to a request that stores a file, where `stored` says whether
/// the body was written to the file.
pub open spec fn post_files_response(
    config: ConfigView,
    request: RequestView,
    stored: bool,
) -> ResponseView {
    match file_target(config, request) {
        Err(response) => response,
        Ok(_) => if stored {
            ResponseView::plain(201, ContentView::Empty)
        } else {
            text_response(404, "Directory path does not exist"@)
        },
    }
}

/// The kinds of request that are told apart.
#[derive(Debug, Copy, Clone, PartialEq, Eq, Structural)]
pub enum Route {
    /// `GET /`: answered with status 200 and nothing else.
    Root,
    /// `GET /echo/...`: see [`handle_echo`].
    Echo,
    /// `GET /user-agent`: see [`handle_user_agent`].
    UserAgent,
    /// `GET /files/...`: see [`handle_files`].
    ReadFile,
    /// `POST /files/...`: see [`handle_post_files`].
    StoreFile,
    /// Anything else: answered with status 404 and nothing else.
    Unknown,
}

/// The kind of a request, by its method and the beginning of its target.
pub open spec fn route_of(request: RequestView) -> Route {
    if request.method == Method::Post {
        if begins_with(request.uri, "/files/"@) {
            Route::StoreFile
        } else {
            Route::Unknown
        }
    } else if request.uri == "/"@ {
        Route::Root
    } else if begins_with(request.uri, "/echo/"@) {
        Route::Echo
    } else if request.uri == "/user-agent"@ {
        Route::UserAgent
    } else if begins_with(request.uri, "/files/"@) {
        Route::ReadFile
    } else {
        Route::Unknown
    }
}

/// Tells of which kind a request is.
pub fn route(request: &Request) -> (r: Route)
    ensures
        r == route_of(request@),
{
    let uri = request.uri.as_str();
    match request.method {
        Method::Post => if starts_with(uri, "/files/") {
            Route::StoreFile
        } else {
            Route::Unknown
        },
        Method::Get => if same_text(uri, "/") {
            Route::Root
        } else if starts_with(uri, "/echo/") {
            Route::Echo
        } else if same_text(uri, "/user-agent") {
            Route::UserAgent
        } else if starts_with(uri, "/files/") {
            Route::ReadFile
        } else {
            Route::Unknown
        },
    }
}

/// Answers with the request's user agent.
pub fn handle_user_agent(request: Request) -> (response: Response)
    ensures
        response@ == user_agent_response(request@),
{
    match request.headers.get("User-Agent") {
        Some(agent) => Response::new(200, Content::Text(agent.to_owned())),
        None => Response::new(400, Content::Text("No user agent found".to_owned())),
    }
}

/// Answers with the text that the target gives after `/echo/`.
pub fn handle_echo(request: Request) -> (response: Response)
    ensures
        response@ == echo_response(request@),
{
    proof {
        reveal_strlit("/echo/");
    }
    match segment(request.uri.as_str(), "/echo/") {
        Some(message) => Response::new(200, Content::Text(message)),
        None => Response::new(400, Content::Text("No string found".to_owned())),
    }
}

/// Says which file a request names, or answers that it names none.
pub fn file_path(config: &Config, request: &Request) -> (r: Result<String, Response>)
    ensures
        match r {
            Ok(path) => file_target(config@, request@) == Ok::<Seq<char>, ResponseView>(path@),
            Err(response) => file_target(config@, request@) == Err::<Seq<char>, ResponseView>(
                response@,
            ),
        },
{
    proof {
        reveal_strlit("/files/");
    }
    let name = match segment(request.uri.as_str(), "/files/") {
        Some(name) => name,
        None => {
            return Err(Response::new(400, Content::Text("No filename found".to_owned())));
        },
    };
    match &config.directory {
        None => Err(Response::new(404, Content::Text("No file directory found".to_owned()))),
        Some(dir) => {
            let mut path = dir.clone();
            path.append(name.as_str());
            Ok(path)
        },
    }
}

/// Answers a request for a file. `file` is what reading the file at
/// [`file_path`] gave: its bytes, or nothing if it could not be read.
pub fn handle_files(config: &Config, request: Request, file: Option<Vec<u8>>) -> (response:
    Response)
    ensures
        response@ == files_response(
            config@,
            request@,
            match file {
                Some(bytes) => Some(bytes@),
                None => None,
            },
        ),
{
    match file_path(config, &request) {
        Err(response) => response,
        Ok(_) => match file {
            Some(bytes) => Response::new(200, Content::Bytes(bytes)),
            None => Response::new(404, Content::Text("File not found".to_owned())),
        },
    }
}

/// Answers a request that stores a file. `stored` says whether the body was
/// written to the file at [`file_path`].
pub fn handle_post_files(config: &Config, request: Request, stored: bool) -> (response: Response)
    ensures
        response@ == post_files_response(config@, request@, stored),
{
    match file_path(config, &request) {
        Err(response) => response,
        Ok(_) => if stored {
            Response::new(201, Content::Empty)
        } else {
            Response::new(404, Content::Text("Directory path does not exist".to_owned()))
        },
    }
}

} // verus!
