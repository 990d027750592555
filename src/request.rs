//! Request frames: `<TAG> <COMMAND> <OPERANDS>...`.
use vstd::prelude::*;
use crate::error::{QuipError, QuipResult};
use crate::token::{
    detokenize, edges_kept, join_spec, lemma_tokenize_detokenize, strings_view, tokenize,
    tokenize_spec,
};

verus! {

/// General request body.
///
/// - `Send`: send a message to another user, `<TAG> Send <USER> <MESSAGE>`.
/// - `Login`: authenticate the connection, `<TAG> Login <NAME> <PASSWORD>`;
///   only before authentication.
/// - `SetName`: rename the session, `<TAG> SetName <NAME>`; only after
///   authentication.
/// - `Logout`: disconnect, `<TAG> Logout`.
/// - `Nop`: do nothing, `<TAG> Nop`.
#[derive(Debug)]
pub enum RequestBody {
    Send(String, String),
    Login(String, String),
    SetName(String),
    Logout,
    Nop,
}

/// General request, with the tag its responses carry.
#[derive(Debug)]
pub struct Request {
    pub tag: String,
    pub body: RequestBody,
}

/// The contents of a request body.
pub enum RequestBodyView {
    Send(Seq<char>, Seq<char>),
    Login(Seq<char>, Seq<char>),
    SetName(Seq<char>),
    Logout,
    Nop,
}

/// The contents of a request.
pub struct RequestView {
    pub tag: Seq<char>,
    pub body: RequestBodyView,
}

impl View for RequestBody {
    type V = RequestBodyView;

    open spec fn view(&self) -> RequestBodyView {
        match self {
            RequestBody::Send(a, b) => RequestBodyView::Send(a@, b@),
            RequestBody::Login(a, b) => RequestBodyView::Login(a@, b@),
            RequestBody::SetName(a) => RequestBodyView::SetName(a@),
            RequestBody::Logout => RequestBodyView::Logout,
            RequestBody::Nop => RequestBodyView::Nop,
        }
    }
}

impl View for Request {
    type V = RequestView;

    open spec fn view(&self) -> RequestView {
        RequestView { tag: self.tag@, body: self.body@ }
    }
}

/// The tokens of a request on the wire.
pub open spec fn request_tokens(r: RequestView) -> Seq<Seq<char>> {
    match r.body {
        RequestBodyView::Send(a, b) => seq![r.tag, "Send"@, a, b],
        RequestBodyView::Login(a, b) => seq![r.tag, "Login"@, a, b],
        RequestBodyView::SetName(a) => seq![r.tag, "SetName"@, a],
        RequestBodyView::Logout => seq![r.tag, "Logout"@],
        RequestBodyView::Nop => seq![r.tag, "Nop"@],
    }
}

/// The request that a sequence of tokens spells, if any: a tag, a command,
/// and its operands. `Send` takes exactly a receiver and a message; the other
/// commands ignore tokens after their operands.
pub open spec fn parse_request_tokens(t: Seq<Seq<char>>) -> Option<RequestView> {
    if t.len() < 2 {
        None
    } else if t[1] == "Send"@ {
        if t.len() == 4 {
            Some(RequestView { tag: t[0], body: RequestBodyView::Send(t[2], t[3]) })
        } else {
            None
        }
    } else if t[1] == "Login"@ {
        if t.len() >= 4 {
            Some(RequestView { tag: t[0], body: RequestBodyView::Login(t[2], t[3]) })
        } else {
            None
        }
    } else if t[1] == "SetName"@ {
        if t.len() >= 3 {
            Some(RequestView { tag: t[0], body: RequestBodyView::SetName(t[2]) })
        } else {
            None
        }
    } else if t[1] == "Logout"@ {
        if t.len() >= 2 {
            Some(RequestView { tag: t[0], body: RequestBodyView::Logout })
        } else {
            None
        }
    } else if t[1] == "Nop"@ {
        if t.len() >= 2 {
            Some(RequestView { tag: t[0], body: RequestBodyView::Nop })
        } else {
            None
        }
    } else {
        None
    }
}

/// The request that a line spells, if any.
pub open spec fn parse_request_spec(line: Seq<char>) -> Option<RequestView> {
    match tokenize_spec(line) {
        Some(t) => parse_request_tokens(t),
        None => None,
    }
}

/// A request whose tag and operands are non-empty, written out, reads back
/// as itself, provided the line does not start or end with bare white space.
pub proof fn lemma_request_round_trip(r: RequestView)
    requires
        forall|i: int| 0 <= i < request_tokens(r).len() ==> request_tokens(r)[i].len() > 0,
        edges_kept(request_tokens(r)),
    ensures
        parse_request_spec(join_spec(request_tokens(r))) == Some(r),
{
    reveal_strlit("Send");
    reveal_strlit("Login");
    reveal_strlit("SetName");
    reveal_strlit("Logout");
    reveal_strlit("Nop");
    lemma_tokenize_detokenize(request_tokens(r));
}

/// Whether two texts are equal.
pub fn same_text(a: &str, b: &str) -> (r: bool)
    ensures
        r == (a@ == b@),
{
    a.to_owned() == b.to_owned()
}

impl Request {
    pub fn new(tag: &str, body: RequestBody) -> (r: Self)
        ensures
            r.tag@ == tag@,
            r.body == body,
    {
        Request { tag: tag.to_owned(), body }
    }

    /// Reads a request from one line.
    pub fn try_from(value: &str) -> (r: QuipResult<Request>)
        ensures
            match r {
                Ok(req) => parse_request_spec(value@) == Some(req@),
                Err(e) => parse_request_spec(value@) is None && e is Parse,
            },
    {
        let tokens = tokenize(value)?;
        let ghost t = strings_view(tokens@);
        let n = tokens.len();
        if n < 2 {
            return Err(QuipError::Parse("No command found".to_owned()));
        }
        let tag = tokens[0].clone();
        let cmd = tokens[1].as_str();
        proof {
            assert(t[0] == tag@);
            assert(t[1] == cmd@);
        }
        let body = if same_text(cmd, "Send") {
            if n != 4 {
                return Err(QuipError::Parse("Send takes a receiver and a message".to_owned()));
            }
            proof {
                assert(t[2] == tokens@[2]@);
                assert(t[3] == tokens@[3]@);
            }
            RequestBody::Send(tokens[2].clone(), tokens[3].clone())
        } else if same_text(cmd, "Login") {
            if n < 4 {
                return Err(QuipError::Parse("Login takes a name and a password".to_owned()));
            }
            proof {
                assert(t[2] == tokens@[2]@);
                assert(t[3] == tokens@[3]@);
            }
            RequestBody::Login(tokens[2].clone(), tokens[3].clone())
        } else if same_text(cmd, "SetName") {
            if n < 3 {
                return Err(QuipError::Parse("SetName takes a name".to_owned()));
            }
            proof {
                assert(t[2] == tokens@[2]@);
            }
            RequestBody::SetName(tokens[2].clone())
        } else if same_text(cmd, "Logout") {
            RequestBody::Logout
        } else if same_text(cmd, "Nop") {
            RequestBody::Nop
        } else {
            let mut msg = "Unexpected command ".to_owned();
            msg.append(cmd);
            return Err(QuipError::Parse(msg));
        };
        Ok(Request { tag, body })
    }

    /// The request as one line, without the line end.
    pub fn to_string(&self) -> (r: String)
        ensures
            r@ == join_spec(request_tokens(self@)),
    {
        let mut tokens: Vec<&str> = Vec::new();
        tokens.push(self.tag.as_str());
        match &self.body {
            RequestBody::Send(name, msg) => {
                tokens.push("Send");
                tokens.push(name.as_str());
                tokens.push(msg.as_str());
            },
            RequestBody::Login(name, password) => {
                tokens.push("Login");
                tokens.push(name.as_str());
                tokens.push(password.as_str());
            },
            RequestBody::SetName(name) => {
                tokens.push("SetName");
                tokens.push(name.as_str());
            },
            RequestBody::Logout => {
                tokens.push("Logout");
            },
            RequestBody::Nop => {
                tokens.push("Nop");
            },
        }
        let r = detokenize(&tokens);
        proof {
            assert(crate::token::strs_view(tokens@) =~= request_tokens(self@));
        }
        r
    }
}

} // verus!
