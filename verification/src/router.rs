//! Choosing the response for a parsed request.
//!
//! The dispatcher is stateless: the plan for a request is a function of the
//! request and of whether a served directory was configured, and of nothing
//! else. The rules are tried in a fixed order, so exactly one applies.

use vstd::prelude::*;

use crate::request::HttpRequest;
use crate::request::ParseError;
use crate::request::SpecRequest;
use crate::request::spec_parse;
use crate::response::respond_with_200_ok;
use crate::response::respond_with_404_not_found;
use crate::response::respond_with_octet_stream;
use crate::response::respond_with_text_content;
use crate::response::spec_not_found_response;
use crate::response::spec_octet_response;
use crate::response::spec_ok_response;
use crate::response::spec_text_response;
use crate::wire::bytes_eq;
use crate::wire::echo_prefix;
use crate::wire::echo_prefix_vec;
use crate::wire::files_prefix;
use crate::wire::files_prefix_vec;
use crate::wire::root_path;
use crate::wire::root_path_vec;
use crate::wire::starts_with;
use crate::wire::starts_with_bytes;
use crate::wire::subvec;
use crate::wire::user_agent_prefix;
use crate::wire::user_agent_prefix_vec;

verus! {

/// The response rule a path falls under.
#[derive(Clone, Copy, PartialEq, Eq, Structural, Debug)]
pub enum Route {
    /// The bare root path.
    Root,
    /// An echo path: the body is the rest of the path.
    Echo,
    /// The user-agent path: the body is the `User-Agent` header value.
    UserAgent,
    /// A file path: the body is read from the served directory.
    Files,
    /// Everything else.
    NotFound,
}

/// The rule for `p`, tried in order: the exact root path, then the echo
/// prefix, then the user-agent prefix, then the files prefix.
pub open spec fn spec_route(p: Seq<u8>) -> Route {
    if p == root_path() {
        Route::Root
    } else if starts_with(p, echo_prefix()) {
        Route::Echo
    } else if starts_with(p, user_agent_prefix()) {
        Route::UserAgent
    } else if starts_with(p, files_prefix()) {
        Route::Files
    } else {
        Route::NotFound
    }
}

/// Decide which rule the path falls under.
pub fn route_of(path: &Vec<u8>) -> (r: Route)
    ensures
        r == spec_route(path@),
{
    if bytes_eq(path, &root_path_vec()) {
        Route::Root
    } else if starts_with_bytes(path, &echo_prefix_vec()) {
        Route::Echo
    } else if starts_with_bytes(path, &user_agent_prefix_vec()) {
        Route::UserAgent
    } else if starts_with_bytes(path, &files_prefix_vec()) {
        Route::Files
    } else {
        Route::NotFound
    }
}

/// What the dispatcher asks of its caller: either a finished response, or
/// the name of a file to read from the served directory before the
/// response can be finished with `file_response`.
pub enum Plan {
    /// The response bytes, ready to write.
    Ready(Vec<u8>),
    /// The file to read, relative to the served directory.
    NeedFile(Vec<u8>),
}

/// The mathematical image of a `Plan`.
pub enum SpecPlan {
    /// The response bytes, ready to write.
    Ready(Seq<u8>),
    /// The file to read, relative to the served directory.
    NeedFile(Seq<u8>),
}

impl View for Plan {
    type V = SpecPlan;

    open spec fn view(&self) -> SpecPlan {
        match self {
            Plan::Ready(b) => SpecPlan::Ready(b@),
            Plan::NeedFile(n) => SpecPlan::NeedFile(n@),
        }
    }
}

/// Why a request could not be served.
#[derive(Clone, Copy, PartialEq, Eq, Structural, Debug)]
pub enum ServeError {
    /// A file was asked for but no served directory was configured.
    MissingDirectory,
}

/// The plan for a request: the response its path's rule calls for, a file
/// to read first, or a failure when a file is asked for with no served
/// directory configured.
pub open spec fn spec_plan(r: SpecRequest, dir_configured: bool) -> Result<SpecPlan, ServeError> {
    match spec_route(r.path) {
        Route::Root => Ok(SpecPlan::Ready(spec_ok_response())),
        Route::Echo => Ok(SpecPlan::Ready(spec_text_response(r.path.skip(echo_prefix().len() as int)))),
        Route::UserAgent => Ok(SpecPlan::Ready(spec_text_response(r.user_agent))),
        Route::Files => if dir_configured {
            Ok(SpecPlan::NeedFile(r.path.skip(files_prefix().len() as int)))
        } else {
            Err(ServeError::MissingDirectory)
        },
        Route::NotFound => Ok(SpecPlan::Ready(spec_not_found_response())),
    }
}

pub open spec fn plan_result_view(r: Result<Plan, ServeError>) -> Result<SpecPlan, ServeError> {
    match r {
        Ok(p) => Ok(p@),
        Err(e) => Err(e),
    }
}

/// Plan the response for `req`.
pub fn plan_response(req: &HttpRequest, dir_configured: bool) -> (r: Result<Plan, ServeError>)
    ensures
        plan_result_view(r) == spec_plan(req@, dir_configured),
{
    match route_of(&req.path) {
        Route::Root => Ok(Plan::Ready(respond_with_200_ok())),
        Route::Echo => {
            let suffix = subvec(&req.path, 6, req.path.len());
            proof {
                assert(suffix@ =~= req.path@.skip(echo_prefix().len() as int));
            }
            Ok(Plan::Ready(respond_with_text_content(&suffix)))
        },
        Route::UserAgent => Ok(Plan::Ready(respond_with_text_content(&req.user_agent))),
        Route::Files => {
            if dir_configured {
                let name = subvec(&req.path, 7, req.path.len());
                proof {
                    assert(name@ =~= req.path@.skip(files_prefix().len() as int));
                }
                Ok(Plan::NeedFile(name))
            } else {
                Err(ServeError::MissingDirectory)
            }
        },
        Route::NotFound => Ok(Plan::Ready(respond_with_404_not_found())),
    }
}

/// Finish a `NeedFile` plan once the served directory has answered: the
/// file's bytes become an octet-stream response, an absent file becomes
/// `404 Not Found`.
pub fn file_response(found: Option<Vec<u8>>) -> (r: Vec<u8>)
    ensures
        match found {
            Some(b) => r@ == spec_octet_response(b@),
            None => r@ == spec_not_found_response(),
        },
{
    match found {
        Some(b) => respond_with_octet_stream(&b),
        None => respond_with_404_not_found(),
    }
}

/// Why a connection's request could not be turned into a plan.
#[derive(Clone, Copy, PartialEq, Eq, Structural, Debug)]
pub enum HandleError {
    /// The request bytes did not parse.
    Parse(ParseError),
    /// The request parsed but could not be served.
    Serve(ServeError),
}

/// The outcome of handling the message in `s`: parse it, then plan the
/// response.
pub open spec fn spec_handle(s: Seq<u8>, dir_configured: bool) -> Result<SpecPlan, HandleError> {
    match spec_parse(s) {
        Err(e) => Err(HandleError::Parse(e)),
        Ok(req) => match spec_plan(req, dir_configured) {
            Ok(p) => Ok(p),
            Err(e) => Err(HandleError::Serve(e)),
        },
    }
}

pub open spec fn handle_result_view(r: Result<Plan, HandleError>) -> Result<SpecPlan, HandleError> {
    match r {
        Ok(p) => Ok(p@),
        Err(e) => Err(e),
    }
}

/// Handle one connection's request bytes: parse them and plan the
/// response. Each failure is reported exactly as the parse and plan specs
/// state it, and is local to this request.
pub fn handle_request(input: &Vec<u8>, dir_configured: bool) -> (r: Result<Plan, HandleError>)
    ensures
        handle_result_view(r) == spec_handle(input@, dir_configured),
{
    let req = match HttpRequest::new(input) {
        Ok(req) => req,
        Err(e) => {
            return Err(HandleError::Parse(e));
        },
    };
    match plan_response(&req, dir_configured) {
        Ok(p) => Ok(p),
        Err(e) => Err(HandleError::Serve(e)),
    }
}

} // verus!
