use vstd::prelude::*;

verus! {

/// A request to read the resource at `path`.
#[derive(Debug, PartialEq, Eq)]
pub struct Request {
    pub path: String,
}

impl View for Request {
    type V = Seq<char>;

    open spec fn view(&self) -> Seq<char> {
        self.path@
    }
}

/// The condition raised when a builder is finished without its required field.
#[derive(Debug, Clone, Copy, PartialEq, Eq)]
pub struct MissingField;

/// Collects the fields of a `Request`; `path` is required.
pub struct RequestBuilder {
    pub path: Option<String>,
}

impl RequestBuilder {
    pub fn with_path(self, path: String) -> (r: RequestBuilder)
        ensures
            r.path == Some(path),
    {
        RequestBuilder { path: Some(path) }
    }

    pub fn build(self) -> (r: Result<Request, MissingField>)
        ensures
            self.path is None <==> r is Err,
            self.path is Some ==> r == Ok::<Request, MissingField>(Request { path: self.path->0 }),
    {
        match self.path {
            Some(path) => Ok(Request { path }),
            None => Err(MissingField),
        }
    }
}

/// A builder with no field set.
pub fn request() -> (r: RequestBuilder)
    ensures
        r.path is None,
{
    RequestBuilder { path: None }
}

/// The bytes read for a request.
#[derive(Debug, PartialEq, Eq)]
pub struct Response {
    pub content: Vec<u8>,
}

impl View for Response {
    type V = Seq<u8>;

    open spec fn view(&self) -> Seq<u8> {
        self.content@
    }
}

/// Collects the fields of a `Response`; `content` is required.
pub struct ResponseBuilder {
    pub content: Option<Vec<u8>>,
}

impl ResponseBuilder {
    pub fn with_content(self, content: Vec<u8>) -> (r: ResponseBuilder)
        ensures
            r.content == Some(content),
    {
        ResponseBuilder { content: Some(content) }
    }

    pub fn build(self) -> (r: Result<Response, MissingField>)
        ensures
            self.content is None <==> r is Err,
            self.content is Some ==> r == Ok::<Response, MissingField>(
                Response { content: self.content->0 },
            ),
    {
        match self.content {
            Some(content) => Ok(Response { content }),
            None => Err(MissingField),
        }
    }
}

/// A builder with no field set.
pub fn response() -> (r: ResponseBuilder)
    ensures
        r.content is None,
{
    ResponseBuilder { content: None }
}

} // verus!
