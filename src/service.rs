//! The decisions of a connection, one frame at a time.
//!
//! A connection first runs an unauthenticated loop (`serve_unauth`) until a
//! `Login` succeeds. Then a reader (`serve_read`) turns each frame into
//! responses queued in mailboxes, and a writer (`serve_write`) empties the
//! session's mailbox onto the wire each time it is woken. When either ends,
//! `serve_close` drops the session's mailbox. The loops themselves, the
//! reading, writing and waking, belong to whoever drives the connection.
use vstd::prelude::*;
use crate::backend::{
    MemoryBackend, is_live, with_ensured, with_login, with_pushed, with_renamed,
};
use crate::connection::{ConnectionStatus, MailboxView, responses_view};
use crate::data::{is_known, password_of, User};
use crate::error::{QuipError, QuipResult};
use crate::request::{Request, RequestBody, RequestBodyView};
use crate::response::{Response, ResponseBodyView, ResponseError, ResponseView};

verus! {

/// What the unauthenticated loop does after one frame.
#[derive(Debug)]
pub enum UnauthStep {
    /// Write this response to the wire and read on.
    Reply(Response),
    /// Logged in. The mailbox with this id now holds the `Success` reply;
    /// wake its writer and go on to the authenticated phase.
    Login(u64),
    /// End the connection.
    Close(QuipError),
}

/// What the authenticated reader does after one frame.
#[derive(Debug)]
pub enum AuthStep {
    /// Responses were queued: wake the writers of these mailboxes and read on.
    Continue(Vec<u64>),
    /// End the connection.
    Close(QuipError),
}

/// A response that answers the request tagged `tag`.
pub open spec fn tagged(tag: Seq<char>, body: ResponseBodyView) -> ResponseView {
    ResponseView { tag: Some(tag), body }
}

/// A response that answers no request: tagged `*` on the wire.
pub open spec fn untagged(body: ResponseBodyView) -> ResponseView {
    ResponseView { tag: None, body }
}

/// The id of the mailbox of `name` when its writer is to be woken.
pub open spec fn wake_of(m: Map<Seq<char>, MailboxView>, name: Seq<char>) -> Seq<u64> {
    if is_live(m, name) {
        seq![m[name].id]
    } else {
        Seq::empty()
    }
}

/// The mailboxes after `me` sends `msg` to `to` under `tag`, or `None` when
/// no mailbox id is left for a new one.
pub open spec fn send_effect(
    m: Map<Seq<char>, MailboxView>,
    users: Seq<User>,
    me: Seq<char>,
    tag: Seq<char>,
    to: Seq<char>,
    msg: Seq<char>,
    fresh: u64,
) -> Option<Map<Seq<char>, MailboxView>> {
    if !is_known(users, to) {
        Some(with_pushed(m, me, tagged(tag, ResponseBodyView::Error(ResponseError::NotFound))))
    } else if !m.contains_key(to) && fresh == u64::MAX {
        None
    } else {
        let m1 = with_ensured(m, to, fresh);
        let m2 = with_pushed(m1, to, untagged(ResponseBodyView::Recv(me, msg)));
        Some(with_pushed(m2, me, tagged(tag, ResponseBodyView::Success(Some(to)))))
    }
}

/// The writers to wake after a send.
pub open spec fn send_wake(
    m: Map<Seq<char>, MailboxView>,
    users: Seq<User>,
    me: Seq<char>,
    to: Seq<char>,
    msg: Seq<char>,
    fresh: u64,
) -> Seq<u64> {
    if !is_known(users, to) {
        wake_of(m, me)
    } else {
        let m1 = with_ensured(m, to, fresh);
        let m2 = with_pushed(m1, to, untagged(ResponseBodyView::Recv(me, msg)));
        wake_of(m1, to) + wake_of(m2, me)
    }
}

/// The mailboxes after the session `me` asks to be called `new`.
pub open spec fn rename_effect(
    m: Map<Seq<char>, MailboxView>,
    me: Seq<char>,
    tag: Seq<char>,
    new: Seq<char>,
) -> Map<Seq<char>, MailboxView> {
    if new == me {
        with_pushed(m, me, tagged(tag, ResponseBodyView::Success(Some(new))))
    } else if !is_live(m, me) {
        with_pushed(m, me, tagged(tag, ResponseBodyView::Error(ResponseError::NotFound)))
    } else if m.contains_key(new) {
        with_pushed(m, me, tagged(tag, ResponseBodyView::Error(ResponseError::Duplicate)))
    } else {
        with_pushed(
            with_renamed(m, me, new),
            new,
            tagged(tag, ResponseBodyView::Success(Some(new))),
        )
    }
}

/// The writers to wake after a rename.
pub open spec fn rename_wake(m: Map<Seq<char>, MailboxView>, me: Seq<char>, new: Seq<char>) -> Seq<
    u64,
> {
    if new != me && is_live(m, me) && !m.contains_key(new) {
        wake_of(with_renamed(m, me, new), new)
    } else {
        wake_of(m, me)
    }
}

/// Queues `resp` in the mailbox of `me`.
fn reply_to(server: &mut MemoryBackend, me: &str, resp: Response) -> (wake: Vec<u64>)
    requires
        old(server).wf(),
    ensures
        final(server).wf(),
        final(server).users() == old(server).users(),
        final(server).next_id == old(server).next_id,
        final(server).mailboxes() == with_pushed(old(server).mailboxes(), me@, resp@),
        wake@ == wake_of(old(server).mailboxes(), me@),
{
    let mut wake: Vec<u64> = Vec::new();
    match server.push_resp(me, resp) {
        Some(id) => wake.push(id),
        None => {},
    }
    proof {
        if is_live(old(server).mailboxes(), me@) {
            assert(wake@ =~= seq![old(server).mailboxes()[me@].id]);
        } else {
            assert(wake@ =~= Seq::<u64>::empty());
        }
    }
    wake
}

/// Serves `Send`: queues `Recv` from `me` in the mailbox of `to` (making a
/// `Cache` one for a known user who is away) and `Success` in `me`'s, or
/// `Error NotFound` in `me`'s when the directory does not know `to`.
pub fn serve_send(server: &mut MemoryBackend, me: &str, tag: &str, to: &str, msg: &str) -> (r:
    QuipResult<Vec<u64>>)
    requires
        old(server).wf(),
    ensures
        final(server).wf(),
        final(server).users() == old(server).users(),
        match send_effect(
            old(server).mailboxes(),
            old(server).users(),
            me@,
            tag@,
            to@,
            msg@,
            old(server).next_id,
        ) {
            Some(m) => r matches Ok(wake) && final(server).mailboxes() == m && wake@ == send_wake(
                old(server).mailboxes(),
                old(server).users(),
                me@,
                to@,
                msg@,
                old(server).next_id,
            ),
            None => r matches Err(e) && e is Unknown && final(server).mailboxes() == old(server).mailboxes(),
        },
{
    match server.ensure_conn(to) {
        Ok(_) => {
            let recv = Response::recv(None, me, msg);
            let mut wake = reply_to(server, to, recv);
            let ack = Response::success(Some(tag.to_owned()), Some(to.to_owned()));
            let mut more = reply_to(server, me, ack);
            wake.append(&mut more);
            Ok(wake)
        },
        Err(QuipError::NotFound(_)) => {
            let err = Response::error(Some(tag.to_owned()), ResponseError::NotFound);
            Ok(reply_to(server, me, err))
        },
        Err(e) => Err(e),
    }
}

/// Serves `SetName`: the session `me` takes the name `new`, unless another
/// mailbox holds it.
pub fn serve_rename(server: &mut MemoryBackend, me: &str, tag: &str, new: &str) -> (wake: Vec<u64>)
    requires
        old(server).wf(),
    ensures
        final(server).wf(),
        final(server).users() == old(server).users(),
        final(server).mailboxes() == rename_effect(old(server).mailboxes(), me@, tag@, new@),
        wake@ == rename_wake(old(server).mailboxes(), me@, new@),
{
    if crate::request::same_text(me, new) {
        let ok = Response::success(Some(tag.to_owned()), Some(new.to_owned()));
        return reply_to(server, me, ok);
    }
    match server.rename_conn(me, new) {
        Ok(()) => {
            let ok = Response::success(Some(tag.to_owned()), Some(new.to_owned()));
            reply_to(server, new, ok)
        },
        Err(QuipError::Duplicate(_)) => {
            let err = Response::error(Some(tag.to_owned()), ResponseError::Duplicate);
            reply_to(server, me, err)
        },
        Err(_) => {
            let err = Response::error(Some(tag.to_owned()), ResponseError::NotFound);
            reply_to(server, me, err)
        },
    }
}

/// After a read that returned no bytes, `zero_reads` of them in a row
/// before it: the count to carry on reading with, or `None` when the peer is
/// taken to be gone. One empty read is forgiven, as some transports report
/// one while the peer is still there; the second in a row is a disconnect.
pub fn after_empty_read(zero_reads: usize) -> (r: Option<usize>)
    ensures
        r == (if zero_reads == 0 {
            Some(1usize)
        } else {
            None::<usize>
        }),
{
    if zero_reads == 0 {
        Some(1)
    } else {
        None
    }
}

/// What the unauthenticated loop does with one frame: `Login` checks the
/// credentials and, on success, queues `Success <name>` in the new session's
/// mailbox; `Logout` ends the connection; `Nop` succeeds; any other verb is
/// `Unauthorized`; a frame that does not parse is `* Error BadCommand`.
pub fn serve_unauth(server: &mut MemoryBackend, request: QuipResult<Request>) -> (r: UnauthStep)
    requires
        old(server).wf(),
    ensures
        final(server).wf(),
        final(server).users() == old(server).users(),
        !(r is Login) ==> final(server).mailboxes() == old(server).mailboxes(),
        match request {
            Ok(req) => match req@.body {
                RequestBodyView::Login(n, p) => {
                    let m = old(server).mailboxes();
                    let users = old(server).users();
                    if password_of(users, n) is None {
                        r matches UnauthStep::Reply(x) && x@ == tagged(
                            req@.tag,
                            ResponseBodyView::Error(ResponseError::NotFound),
                        )
                    } else if password_of(users, n) != Some(p) {
                        r matches UnauthStep::Reply(x) && x@ == tagged(
                            req@.tag,
                            ResponseBodyView::Error(ResponseError::Unauthorized),
                        )
                    } else if is_live(m, n) {
                        r matches UnauthStep::Reply(x) && x@ == tagged(
                            req@.tag,
                            ResponseBodyView::Error(ResponseError::Duplicate),
                        )
                    } else if !m.contains_key(n) && old(server).next_id == u64::MAX {
                        r matches UnauthStep::Close(e) && e is Unknown
                    } else {
                        &&& r matches UnauthStep::Login(id)
                        &&& final(server).mailboxes() == with_pushed(
                            with_login(m, n, old(server).next_id),
                            n,
                            tagged(req@.tag, ResponseBodyView::Success(Some(n))),
                        )
                        &&& id == final(server).mailboxes()[n].id
                    }
                },
                RequestBodyView::Logout => r matches UnauthStep::Close(e) && e is Disconnect,
                RequestBodyView::Nop => r matches UnauthStep::Reply(x) && x@ == tagged(
                    req@.tag,
                    ResponseBodyView::Success(None),
                ),
                _ => r matches UnauthStep::Reply(x) && x@ == tagged(
                    req@.tag,
                    ResponseBodyView::Error(ResponseError::Unauthorized),
                ),
            },
            Err(e) => if e is Parse {
                r matches UnauthStep::Reply(x) && x@ == untagged(
                    ResponseBodyView::Error(ResponseError::BadCommand),
                )
            } else {
                r is Close
            },
        },
{
    let req = match request {
        Ok(req) => req,
        Err(QuipError::Parse(_)) => {
            return UnauthStep::Reply(Response::error(None, ResponseError::BadCommand));
        },
        Err(e) => {
            return UnauthStep::Close(e);
        },
    };
    let tag = req.tag;
    match req.body {
        RequestBody::Login(name, password) => {
            match server.load_conn(name.as_str(), password.as_str()) {
                Ok(id) => {
                    let ok = Response::success(Some(tag), Some(name.clone()));
                    let _ = server.push_resp(name.as_str(), ok);
                    UnauthStep::Login(id)
                },
                Err(QuipError::NotFound(_)) => UnauthStep::Reply(
                    Response::error(Some(tag), ResponseError::NotFound),
                ),
                Err(QuipError::Unauthorized(_)) => UnauthStep::Reply(
                    Response::error(Some(tag), ResponseError::Unauthorized),
                ),
                Err(QuipError::Duplicate(_)) => UnauthStep::Reply(
                    Response::error(Some(tag), ResponseError::Duplicate),
                ),
                Err(e) => UnauthStep::Close(e),
            }
        },
        RequestBody::Logout => UnauthStep::Close(QuipError::Disconnect),
        RequestBody::Nop => UnauthStep::Reply(Response::success(Some(tag), None)),
        _ => UnauthStep::Reply(Response::error(Some(tag), ResponseError::Unauthorized)),
    }
}

/// What the authenticated reader does with one frame of the session whose
/// mailbox has id `id`. Replies go to the session's own mailbox: `Send`
/// routes a `Recv` through the registry, `SetName` renames the session,
/// `Login` is `Unauthorized` once logged in, `Nop` succeeds, a frame that
/// does not parse is `* Error BadCommand`, and `Logout` ends the connection,
/// as does a session whose mailbox is gone.
pub fn serve_read(server: &mut MemoryBackend, id: u64, request: QuipResult<Request>) -> (r:
    AuthStep)
    requires
        old(server).wf(),
    ensures
        final(server).wf(),
        final(server).users() == old(server).users(),
        r is Close ==> final(server).mailboxes() == old(server).mailboxes(),
        (forall|n: Seq<char>|
            old(server).mailboxes().contains_key(n) ==> old(server).mailboxes()[n].id != id) ==> (
        r matches AuthStep::Close(e) && e is Disconnect),
        forall|me: Seq<char>|
            old(server).mailboxes().contains_key(me) && old(server).mailboxes()[me].id == id ==> {
                let m = old(server).mailboxes();
                match request {
                    Ok(req) => match req@.body {
                        RequestBodyView::Send(to, msg) => match send_effect(
                            m,
                            old(server).users(),
                            me,
                            req@.tag,
                            to,
                            msg,
                            old(server).next_id,
                        ) {
                            Some(m2) => r matches AuthStep::Continue(w) && final(server).mailboxes()
                                == m2 && w@ == send_wake(
                                m,
                                old(server).users(),
                                me,
                                to,
                                msg,
                                old(server).next_id,
                            ),
                            None => r matches AuthStep::Close(e) && e is Unknown,
                        },
                        RequestBodyView::SetName(new) => r matches AuthStep::Continue(w)
                            && final(server).mailboxes() == rename_effect(m, me, req@.tag, new) && w@
                            == rename_wake(m, me, new),
                        RequestBodyView::Login(_, _) => r matches AuthStep::Continue(w) && final(server).mailboxes() == with_pushed(
                            m,
                            me,
                            tagged(req@.tag, ResponseBodyView::Error(ResponseError::Unauthorized)),
                        ) && w@ == wake_of(m, me),
                        RequestBodyView::Logout => r matches AuthStep::Close(e) && e is Disconnect,
                        RequestBodyView::Nop => r matches AuthStep::Continue(w) && final(server).mailboxes() == with_pushed(
                            m,
                            me,
                            tagged(req@.tag, ResponseBodyView::Success(None)),
                        ) && w@ == wake_of(m, me),
                    },
                    Err(e) => if e is Parse {
                        r matches AuthStep::Continue(w) && final(server).mailboxes() == with_pushed(
                            m,
                            me,
                            untagged(ResponseBodyView::Error(ResponseError::BadCommand)),
                        ) && w@ == wake_of(m, me)
                    } else {
                        r is Close
                    },
                }
            },
{
    proof {
        server.lemma_model();
    }
    let me = match server.name_of(id) {
        Some(n) => n,
        None => {
            return AuthStep::Close(QuipError::Disconnect);
        },
    };
    let req = match request {
        Ok(req) => req,
        Err(QuipError::Parse(_)) => {
            let err = Response::error(None, ResponseError::BadCommand);
            return AuthStep::Continue(reply_to(server, me.as_str(), err));
        },
        Err(e) => {
            return AuthStep::Close(e);
        },
    };
    let tag = req.tag;
    match req.body {
        RequestBody::Send(to, msg) => {
            match serve_send(server, me.as_str(), tag.as_str(), to.as_str(), msg.as_str()) {
                Ok(wake) => AuthStep::Continue(wake),
                Err(e) => AuthStep::Close(e),
            }
        },
        RequestBody::SetName(new) => {
            AuthStep::Continue(serve_rename(server, me.as_str(), tag.as_str(), new.as_str()))
        },
        RequestBody::Login(_, _) => {
            let err = Response::error(Some(tag), ResponseError::Unauthorized);
            AuthStep::Continue(reply_to(server, me.as_str(), err))
        },
        RequestBody::Logout => AuthStep::Close(QuipError::Disconnect),
        RequestBody::Nop => {
            let ok = Response::success(Some(tag), None);
            AuthStep::Continue(reply_to(server, me.as_str(), ok))
        },
    }
}

/// What the writer does when woken: takes every response queued for the
/// session with mailbox id `id`, oldest first, to be written in that order.
pub fn serve_write(server: &mut MemoryBackend, id: u64) -> (r: Vec<Response>)
    requires
        old(server).wf(),
    ensures
        final(server).wf(),
        final(server).users() == old(server).users(),
        forall|n: Seq<char>| #[trigger]
            old(server).mailboxes().contains_key(n) && old(server).mailboxes()[n].id == id ==> {
                &&& responses_view(r@) == old(server).mailboxes()[n].queue
                &&& final(server).mailboxes() == crate::backend::with_drained(
                    old(server).mailboxes(),
                    n,
                )
            },
        (forall|n: Seq<char>|
            old(server).mailboxes().contains_key(n) ==> old(server).mailboxes()[n].id != id) ==> {
            &&& r@.len() == 0
            &&& final(server).mailboxes() == old(server).mailboxes()
        },
{
    server.drain_conn(id)
}

/// Ends the session with mailbox id `id`: its mailbox leaves the registry,
/// with whatever it still holds.
pub fn serve_close(server: &mut MemoryBackend, id: u64)
    requires
        old(server).wf(),
    ensures
        final(server).wf(),
        final(server).users() == old(server).users(),
        forall|n: Seq<char>|
            old(server).mailboxes().contains_key(n) && old(server).mailboxes()[n].id == id
                ==> final(server).mailboxes() == old(server).mailboxes().remove(n),
        (forall|n: Seq<char>|
            old(server).mailboxes().contains_key(n) ==> old(server).mailboxes()[n].id != id)
            ==> final(server).mailboxes() == old(server).mailboxes(),
{
    proof {
        server.lemma_model();
    }
    match server.name_of(id) {
        Some(name) => server.unload_conn(name.as_str()),
        None => {},
    }
}

/// At most one live session per name: in a well-formed registry no two
/// `Auth` mailboxes share a name. Every operation of the registry keeps it
/// well formed, and a second login under a live name is refused.
pub proof fn lemma_one_session_per_name(b: &MemoryBackend)
    requires
        b.wf(),
    ensures
        forall|i: int, j: int|
            0 <= i < b.conns@.len() && 0 <= j < b.conns@.len() && b.conns@[i].name@
                == b.conns@[j].name@ && b.conns@[i].status == ConnectionStatus::Auth
                && b.conns@[j].status == ConnectionStatus::Auth ==> i == j,
{
}

/// Two successive sends from one sender to one recipient queue their `Recv`s
/// in the recipient's mailbox in the order they were sent, after what it
/// already held (with the sender's own acknowledgements in between when a
/// user writes to itself).
pub proof fn lemma_sends_in_order(
    m: Map<Seq<char>, MailboxView>,
    users: Seq<User>,
    me: Seq<char>,
    to: Seq<char>,
    tag1: Seq<char>,
    msg1: Seq<char>,
    fresh1: u64,
    tag2: Seq<char>,
    msg2: Seq<char>,
    fresh2: u64,
)
    requires
        is_known(users, to),
        send_effect(m, users, me, tag1, to, msg1, fresh1) is Some,
        send_effect(send_effect(m, users, me, tag1, to, msg1, fresh1)->0, users, me, tag2, to, msg2, fresh2) is Some,
    ensures
        ({
            let m1 = send_effect(m, users, me, tag1, to, msg1, fresh1)->0;
            let m2 = send_effect(m1, users, me, tag2, to, msg2, fresh2)->0;
            let before = with_ensured(m, to, fresh1)[to].queue;
            let r1 = untagged(ResponseBodyView::Recv(me, msg1));
            let r2 = untagged(ResponseBodyView::Recv(me, msg2));
            let a1 = tagged(tag1, ResponseBodyView::Success(Some(to)));
            let a2 = tagged(tag2, ResponseBodyView::Success(Some(to)));
            &&& m2.contains_key(to)
            &&& me != to ==> m2[to].queue == before + seq![r1, r2]
            &&& me == to ==> m2[to].queue == before + seq![r1, a1, r2, a2]
        }),
{
    let m1 = send_effect(m, users, me, tag1, to, msg1, fresh1)->0;
    let m2 = send_effect(m1, users, me, tag2, to, msg2, fresh2)->0;
    let before = with_ensured(m, to, fresh1)[to].queue;
    let r1 = untagged(ResponseBodyView::Recv(me, msg1));
    let r2 = untagged(ResponseBodyView::Recv(me, msg2));
    let a1 = tagged(tag1, ResponseBodyView::Success(Some(to)));
    let a2 = tagged(tag2, ResponseBodyView::Success(Some(to)));
    assert(with_ensured(m1, to, fresh2) == m1);
    if me != to {
        assert(m1[to].queue =~= before.push(r1));
        assert(m2[to].queue =~= before + seq![r1, r2]);
    } else {
        assert(m1[to].queue =~= before.push(r1).push(a1));
        assert(m2[to].queue =~= before + seq![r1, a1, r2, a2]);
    }
}

/// A send to a known user that is not refused leaves its `Recv` in the
/// recipient's mailbox; what later reaches that mailbox is queued behind it,
/// and logging in keeps the mailbox's queue, so the recipient's writer
/// takes it out once the recipient logs in.
pub proof fn lemma_send_reaches(
    m: Map<Seq<char>, MailboxView>,
    users: Seq<User>,
    me: Seq<char>,
    tag: Seq<char>,
    to: Seq<char>,
    msg: Seq<char>,
    fresh: u64,
    login_fresh: u64,
    other: Seq<char>,
    x: ResponseView,
)
    requires
        is_known(users, to),
        send_effect(m, users, me, tag, to, msg, fresh) is Some,
    ensures
        ({
            let m1 = send_effect(m, users, me, tag, to, msg, fresh)->0;
            let r = untagged(ResponseBodyView::Recv(me, msg));
            &&& m1.contains_key(to)
            &&& m1[to].queue.contains(r)
            &&& with_pushed(m1, other, x)[to].queue.contains(r)
            &&& with_login(m1, to, login_fresh)[to].queue == m1[to].queue
            &&& with_login(m1, to, login_fresh)[to].status == ConnectionStatus::Auth
        }),
{
    let m1 = send_effect(m, users, me, tag, to, msg, fresh)->0;
    let r = untagged(ResponseBodyView::Recv(me, msg));
    let q0 = with_ensured(m, to, fresh)[to].queue;
    if me != to {
        assert(m1[to].queue =~= q0.push(r));
        assert(m1[to].queue[q0.len() as int] == r);
    } else {
        let a = tagged(tag, ResponseBodyView::Success(Some(to)));
        assert(m1[to].queue =~= q0.push(r).push(a));
        assert(m1[to].queue[q0.len() as int] == r);
    }
    let q1 = m1[to].queue;
    if other == to {
        assert(with_pushed(m1, other, x)[to].queue =~= q1.push(x));
        assert(with_pushed(m1, other, x)[to].queue[q0.len() as int] == r);
    }
}

} // verus!
