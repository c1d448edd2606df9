use vstd::prelude::*;

verus! {

/// The HTTP methods the dispatcher distinguishes.
#[derive(PartialEq, Eq, Structural, Clone, Copy, Debug)]
pub enum Method {
    Get,
    Post,
    Put,
    Delete,
    Patch,
    Head,
    Options,
}

/// A finished response: a status code and a textual body. Header handling,
/// serialization and transmission belong to the transport collaborator.
pub struct Response {
    pub status: u16,
    pub body: String,
}

/// Mathematical image of a `Response`.
pub struct ResponseModel {
    pub status: u16,
    pub body: Seq<char>,
}

impl View for Response {
    type V = ResponseModel;

    open spec fn view(&self) -> ResponseModel {
        ResponseModel { status: self.status, body: self.body@ }
    }
}

impl Response {
    /// A copy that denotes the same response.
    pub fn duplicate(&self) -> (r: Response)
        ensures
            r@ == self@,
    {
        Response { status: self.status, body: self.body.clone() }
    }

    /// The 500-equivalent terminal response: an unexpected fault inside a
    /// handler or wrapper, caught at the dispatch boundary.
    pub fn server_error() -> (r: Response)
        ensures
            r@.status == 500,
            r@.body == Seq::<char>::empty(),
    {
        Response { status: 500, body: String::new() }
    }

    /// A 200 response carrying the given body.
    pub fn text(body: String) -> (r: Response)
        ensures
            r@.status == 200,
            r@.body == body@,
    {
        Response { status: 200, body }
    }

    /// The 404-equivalent terminal response: no route matched the path.
    pub fn not_found() -> (r: Response)
        ensures
            r@.status == 404,
            r@.body == Seq::<char>::empty(),
    {
        Response { status: 404, body: String::new() }
    }

    /// The 405-equivalent terminal response: the route exists but does not
    /// allow the request's method.
    pub fn method_not_allowed() -> (r: Response)
        ensures
            r@.status == 405,
            r@.body == Seq::<char>::empty(),
    {
        Response { status: 405, body: String::new() }
    }
}

/// The model of an optional response: the model of the response if one is
/// present.
pub open spec fn opt_response_model(r: Option<Response>) -> Option<ResponseModel> {
    match r {
        Some(resp) => Some(resp@),
        None => None,
    }
}

} // verus!
