//! Response frames: `<TAG> Success [<MESSAGE>]`, `<TAG> Error <CODE>` and
//! `* Recv <SENDER> <MESSAGE>`.
use vstd::prelude::*;
use crate::error::{QuipError, QuipResult};
use crate::request::same_text;
use crate::token::{
    detokenize, edges_kept, join_spec, lemma_tokenize_detokenize, strings_view, tokenize,
    tokenize_spec,
};

verus! {

/// Error code of a response, `<TAG> Error <CODE>`.
#[derive(Debug, Clone, Copy, PartialEq, Eq, Structural)]
pub enum ResponseError {
    BadCommand,
    Unauthorized,
    Duplicate,
    NotFound,
}

/// The word of an error code.
pub open spec fn error_word(e: ResponseError) -> Seq<char> {
    match e {
        ResponseError::BadCommand => "BadCommand"@,
        ResponseError::Unauthorized => "Unauthorized"@,
        ResponseError::Duplicate => "Duplicate"@,
        ResponseError::NotFound => "NotFound"@,
    }
}

/// The error code a word names, matched case-sensitively.
pub open spec fn parse_error_spec(w: Seq<char>) -> Option<ResponseError> {
    if w == "BadCommand"@ {
        Some(ResponseError::BadCommand)
    } else if w == "Unauthorized"@ {
        Some(ResponseError::Unauthorized)
    } else if w == "Duplicate"@ {
        Some(ResponseError::Duplicate)
    } else if w == "NotFound"@ {
        Some(ResponseError::NotFound)
    } else {
        None
    }
}

impl ResponseError {
    /// Reads an error code.
    pub fn try_from(value: &str) -> (r: QuipResult<ResponseError>)
        ensures
            match r {
                Ok(e) => parse_error_spec(value@) == Some(e),
                Err(e) => parse_error_spec(value@) is None && e is Parse,
            },
    {
        if same_text(value, "BadCommand") {
            Ok(ResponseError::BadCommand)
        } else if same_text(value, "Unauthorized") {
            Ok(ResponseError::Unauthorized)
        } else if same_text(value, "Duplicate") {
            Ok(ResponseError::Duplicate)
        } else if same_text(value, "NotFound") {
            Ok(ResponseError::NotFound)
        } else {
            let mut msg = value.to_owned();
            msg.append(" is not a valid ResponseError");
            Err(QuipError::Parse(msg))
        }
    }

    /// The word of this code.
    pub fn as_str(&self) -> (r: &'static str)
        ensures
            r@ == error_word(*self),
    {
        match self {
            ResponseError::BadCommand => "BadCommand",
            ResponseError::Unauthorized => "Unauthorized",
            ResponseError::Duplicate => "Duplicate",
            ResponseError::NotFound => "NotFound",
        }
    }

    /// The word of this code, owned.
    pub fn to_string(&self) -> (r: String)
        ensures
            r@ == error_word(*self),
    {
        self.as_str().to_owned()
    }
}

/// General response body.
///
/// - `Success`: the command was processed, `<TAG> Success [<MESSAGE>]`.
/// - `Error`: the command failed, `<TAG> Error <CODE>`.
/// - `Recv`: a message from another user, `* Recv <USER> <MESSAGE>`.
#[derive(Debug)]
pub enum ResponseBody {
    Success(Option<String>),
    Error(ResponseError),
    Recv(String, String),
}

/// General response, with the tag of the request it answers, if any.
#[derive(Debug)]
pub struct Response {
    pub tag: Option<String>,
    pub body: ResponseBody,
}

/// The contents of a response body.
pub enum ResponseBodyView {
    Success(Option<Seq<char>>),
    Error(ResponseError),
    Recv(Seq<char>, Seq<char>),
}

/// The contents of a response.
pub struct ResponseView {
    pub tag: Option<Seq<char>>,
    pub body: ResponseBodyView,
}

pub open spec fn opt_view(o: Option<String>) -> Option<Seq<char>> {
    match o {
        Some(s) => Some(s@),
        None => None,
    }
}

impl View for ResponseBody {
    type V = ResponseBodyView;

    open spec fn view(&self) -> ResponseBodyView {
        match self {
            ResponseBody::Success(m) => ResponseBodyView::Success(opt_view(*m)),
            ResponseBody::Error(e) => ResponseBodyView::Error(*e),
            ResponseBody::Recv(a, b) => ResponseBodyView::Recv(a@, b@),
        }
    }
}

impl View for Response {
    type V = ResponseView;

    open spec fn view(&self) -> ResponseView {
        ResponseView { tag: opt_view(self.tag), body: self.body@ }
    }
}

/// The tag token: the tag, or `*` for none.
pub open spec fn tag_token(tag: Option<Seq<char>>) -> Seq<char> {
    match tag {
        Some(t) => t,
        None => "*"@,
    }
}

/// The tokens of a response on the wire.
pub open spec fn response_tokens(r: ResponseView) -> Seq<Seq<char>> {
    let tag = tag_token(r.tag);
    match r.body {
        ResponseBodyView::Success(Some(m)) => seq![tag, "Success"@, m],
        ResponseBodyView::Success(None) => seq![tag, "Success"@],
        ResponseBodyView::Error(e) => seq![tag, "Error"@, error_word(e)],
        ResponseBodyView::Recv(a, b) => seq![tag, "Recv"@, a, b],
    }
}

/// The response that a sequence of tokens spells, if any. Tokens after the
/// operands of a response are ignored.
pub open spec fn parse_response_tokens(t: Seq<Seq<char>>) -> Option<ResponseView> {
    if t.len() < 2 {
        None
    } else {
        let tag = if t[0] == "*"@ {
            None
        } else {
            Some(t[0])
        };
        if t[1] == "Success"@ {
            if t.len() == 2 {
                Some(ResponseView { tag, body: ResponseBodyView::Success(None) })
            } else {
                Some(ResponseView { tag, body: ResponseBodyView::Success(Some(t[2])) })
            }
        } else if t[1] == "Error"@ {
            if t.len() >= 3 {
                match parse_error_spec(t[2]) {
                    Some(e) => Some(ResponseView { tag, body: ResponseBodyView::Error(e) }),
                    None => None,
                }
            } else {
                None
            }
        } else if t[1] == "Recv"@ {
            if t.len() >= 4 {
                Some(ResponseView { tag, body: ResponseBodyView::Recv(t[2], t[3]) })
            } else {
                None
            }
        } else {
            None
        }
    }
}

/// The response that a line spells, if any.
pub open spec fn parse_response_spec(line: Seq<char>) -> Option<ResponseView> {
    match tokenize_spec(line) {
        Some(t) => parse_response_tokens(t),
        None => None,
    }
}

/// A response whose tag is not `*` and whose tokens are non-empty, written
/// out, reads back as itself, provided the line does not start or end with
/// bare white space.
pub proof fn lemma_response_round_trip(r: ResponseView)
    requires
        r.tag != Some("*"@),
        forall|i: int| 0 <= i < response_tokens(r).len() ==> response_tokens(r)[i].len() > 0,
        edges_kept(response_tokens(r)),
    ensures
        parse_response_spec(join_spec(response_tokens(r))) == Some(r),
{
    reveal_strlit("Success");
    reveal_strlit("Error");
    reveal_strlit("Recv");
    reveal_strlit("BadCommand");
    reveal_strlit("Unauthorized");
    reveal_strlit("Duplicate");
    reveal_strlit("NotFound");
    lemma_tokenize_detokenize(response_tokens(r));
}

impl Response {
    pub fn new(tag: Option<String>, body: ResponseBody) -> (r: Self)
        ensures
            r.tag == tag,
            r.body == body,
    {
        Response { tag, body }
    }

    pub fn success(tag: Option<String>, msg: Option<String>) -> (r: Self)
        ensures
            r.tag == tag,
            r.body == ResponseBody::Success(msg),
    {
        Response::new(tag, ResponseBody::Success(msg))
    }

    pub fn error(tag: Option<String>, err: ResponseError) -> (r: Self)
        ensures
            r.tag == tag,
            r.body == ResponseBody::Error(err),
    {
        Response::new(tag, ResponseBody::Error(err))
    }

    pub fn recv(tag: Option<String>, sender: &str, msg: &str) -> (r: Self)
        ensures
            r.tag == tag,
            r.body matches ResponseBody::Recv(a, b) && a@ == sender@ && b@ == msg@,
    {
        Response::new(tag, ResponseBody::Recv(sender.to_owned(), msg.to_owned()))
    }

    /// Reads a response from one line.
    pub fn try_from(value: &str) -> (r: QuipResult<Response>)
        ensures
            match r {
                Ok(resp) => parse_response_spec(value@) == Some(resp@),
                Err(e) => parse_response_spec(value@) is None && e is Parse,
            },
    {
        let tokens = tokenize(value)?;
        let ghost t = strings_view(tokens@);
        let n = tokens.len();
        if n < 2 {
            return Err(QuipError::Parse("No response status found".to_owned()));
        }
        proof {
            assert(t[0] == tokens@[0]@);
            assert(t[1] == tokens@[1]@);
        }
        let tag = if same_text(tokens[0].as_str(), "*") {
            None
        } else {
            Some(tokens[0].clone())
        };
        let kind = tokens[1].as_str();
        let body = if same_text(kind, "Success") {
            if n == 2 {
                ResponseBody::Success(None)
            } else {
                proof {
                    assert(t[2] == tokens@[2]@);
                }
                ResponseBody::Success(Some(tokens[2].clone()))
            }
        } else if same_text(kind, "Error") {
            if n < 3 {
                return Err(QuipError::Parse("Error takes one code".to_owned()));
            }
            proof {
                assert(t[2] == tokens@[2]@);
            }
            let code = ResponseError::try_from(tokens[2].as_str())?;
            ResponseBody::Error(code)
        } else if same_text(kind, "Recv") {
            if n < 4 {
                return Err(QuipError::Parse("Recv takes a sender and a message".to_owned()));
            }
            proof {
                assert(t[2] == tokens@[2]@);
                assert(t[3] == tokens@[3]@);
            }
            ResponseBody::Recv(tokens[2].clone(), tokens[3].clone())
        } else {
            let mut msg = "Unexpected response ".to_owned();
            msg.append(kind);
            return Err(QuipError::Parse(msg));
        };
        Ok(Response { tag, body })
    }

    /// The response as one line, without the line end.
    pub fn to_string(&self) -> (r: String)
        ensures
            r@ == join_spec(response_tokens(self@)),
    {
        let mut tokens: Vec<&str> = Vec::new();
        match &self.tag {
            Some(tag) => tokens.push(tag.as_str()),
            None => tokens.push("*"),
        }
        match &self.body {
            ResponseBody::Success(msg) => {
                tokens.push("Success");
                match msg {
                    Some(m) => tokens.push(m.as_str()),
                    None => {},
                }
            },
            ResponseBody::Error(code) => {
                tokens.push("Error");
                tokens.push(code.as_str());
            },
            ResponseBody::Recv(name, msg) => {
                tokens.push("Recv");
                tokens.push(name.as_str());
                tokens.push(msg.as_str());
            },
        }
        let r = detokenize(&tokens);
        proof {
            assert(crate::token::strs_view(tokens@) =~= response_tokens(self@));
        }
        r
    }
}

} // verus!
