//! Mailboxes: the per-user queue of responses waiting for the wire.
use vstd::prelude::*;
use crate::response::{Response, ResponseView};

verus! {

/// Whether a mailbox belongs to a live session (`Auth`) or only holds
/// messages for a known user who is not logged in (`Cache`).
#[derive(Debug, Clone, Copy, PartialEq, Eq, Structural)]
pub enum ConnectionStatus {
    Cache,
    Auth,
}

/// A mailbox: its identity, its status and its queue, oldest first.
///
/// The notifier that wakes the writer of a session lives with the session;
/// the registry says when to signal it.
#[derive(Debug)]
pub struct Connection {
    pub id: u64,
    pub queue: Vec<Response>,
    pub name: String,
    pub status: ConnectionStatus,
}

/// The contents of a mailbox.
pub struct MailboxView {
    pub id: u64,
    pub name: Seq<char>,
    pub status: ConnectionStatus,
    pub queue: Seq<ResponseView>,
}

/// The views of a sequence of responses.
pub open spec fn responses_view(q: Seq<Response>) -> Seq<ResponseView> {
    q.map_values(|r: Response| r@)
}

impl View for Connection {
    type V = MailboxView;

    open spec fn view(&self) -> MailboxView {
        MailboxView {
            id: self.id,
            name: self.name@,
            status: self.status,
            queue: responses_view(self.queue@),
        }
    }
}

impl Connection {
    /// An empty mailbox.
    pub fn new(id: u64, name: &str, status: ConnectionStatus) -> (r: Self)
        ensures
            r@ == (MailboxView { id, name: name@, status, queue: Seq::empty() }),
    {
        let r = Connection { id, queue: Vec::new(), name: name.to_owned(), status };
        proof {
            assert(responses_view(r.queue@) =~= Seq::<ResponseView>::empty());
        }
        r
    }
}

} // verus!
