//! The registry: user names mapped to mailboxes, with the user directory
//! that decides who may log in and who may receive messages.
use vstd::prelude::*;
use crate::connection::{Connection, ConnectionStatus, MailboxView, responses_view};
use crate::data::{
    BackendData, BackendQueryData, User, find_user, is_known, lemma_last_index, password_of,
};
use crate::error::{QuipError, QuipResult};
use crate::response::{Response, ResponseView};

verus! {

/// The mailboxes of a sequence, keyed by name.
pub open spec fn boxes(s: Seq<Connection>) -> Map<Seq<char>, MailboxView>
    decreases s.len(),
{
    if s.len() == 0 {
        Map::empty()
    } else {
        boxes(s.drop_last()).insert(s.last().name@, s.last()@)
    }
}

/// No two mailboxes share a name.
pub open spec fn names_unique(s: Seq<Connection>) -> bool {
    forall|i: int, j: int|
        0 <= i < s.len() && 0 <= j < s.len() && i != j ==> s[i].name@ != s[j].name@
}

/// The invariant of the registry's mailboxes: one mailbox per name, ids
/// distinct and below the next id to hand out, and a `Cache` mailbox only
/// for a user that the directory knows.
pub open spec fn conns_wf(s: Seq<Connection>, next_id: u64, users: Seq<User>) -> bool {
    &&& names_unique(s)
    &&& forall|i: int| 0 <= i < s.len() ==> (#[trigger] s[i]).id < next_id
    &&& forall|i: int, j: int|
        0 <= i < s.len() && 0 <= j < s.len() && i != j ==> s[i].id != s[j].id
    &&& forall|i: int|
        0 <= i < s.len() && (#[trigger] s[i]).status == ConnectionStatus::Cache ==> is_known(
            users,
            s[i].name@,
        )
}

proof fn lemma_boxes_dom(s: Seq<Connection>)
    requires
        names_unique(s),
    ensures
        forall|n: Seq<char>|
            boxes(s).contains_key(n) <==> exists|i: int| 0 <= i < s.len() && s[i].name@ == n,
        forall|i: int|
            0 <= i < s.len() ==> boxes(s).contains_key(#[trigger] s[i].name@) && boxes(s)[s[i].name@]
                == s[i]@,
    decreases s.len(),
{
    if s.len() > 0 {
        let s0 = s.drop_last();
        assert forall|i: int, j: int|
            0 <= i < s0.len() && 0 <= j < s0.len() && i != j implies s0[i].name@ != s0[j].name@ by {
            assert(s0[i] == s[i] && s0[j] == s[j]);
        }
        lemma_boxes_dom(s0);
        assert forall|n: Seq<char>|
            boxes(s).contains_key(n) <==> exists|i: int| 0 <= i < s.len() && s[i].name@ == n by {
            if boxes(s).contains_key(n) && n != s.last().name@ {
                assert(boxes(s0).contains_key(n));
                let i = choose|i: int| 0 <= i < s0.len() && s0[i].name@ == n;
                assert(s[i] == s0[i]);
            }
            if exists|i: int| 0 <= i < s.len() && s[i].name@ == n {
                let i = choose|i: int| 0 <= i < s.len() && s[i].name@ == n;
                if i < s.len() - 1 {
                    assert(s0[i] == s[i]);
                }
            }
        }
        assert forall|i: int| 0 <= i < s.len() implies boxes(s).contains_key(#[trigger] s[i].name@)
            && boxes(s)[s[i].name@] == s[i]@ by {
            if i < s.len() - 1 {
                assert(s0[i] == s[i]);
                assert(s[i].name@ != s.last().name@);
            }
        }
    }
}

proof fn lemma_boxes_remove(s: Seq<Connection>, i: int)
    requires
        names_unique(s),
        0 <= i < s.len(),
    ensures
        boxes(s.remove(i)) == boxes(s).remove(s[i].name@),
    decreases s.len(),
{
    let s0 = s.drop_last();
    assert forall|a: int, b: int|
        0 <= a < s0.len() && 0 <= b < s0.len() && a != b implies s0[a].name@ != s0[b].name@ by {
        assert(s0[a] == s[a] && s0[b] == s[b]);
    }
    lemma_boxes_dom(s0);
    if i == s.len() - 1 {
        assert(s.remove(i) =~= s0);
        assert forall|j: int| 0 <= j < s0.len() implies s0[j].name@ != s[i].name@ by {
            assert(s0[j] == s[j]);
        }
        assert(boxes(s).remove(s[i].name@) =~= boxes(s0));
    } else {
        assert(s.remove(i).drop_last() =~= s0.remove(i));
        assert(s.remove(i).last() == s.last());
        assert(s0[i] == s[i]);
        lemma_boxes_remove(s0, i);
        assert(s[i].name@ != s.last().name@);
        assert(boxes(s.remove(i)) =~= boxes(s).remove(s[i].name@));
    }
}

/// Taking one mailbox out keeps the invariant and removes its name.
proof fn lemma_wf_remove(s: Seq<Connection>, i: int, next_id: u64, users: Seq<User>)
    requires
        conns_wf(s, next_id, users),
        0 <= i < s.len(),
    ensures
        conns_wf(s.remove(i), next_id, users),
        boxes(s.remove(i)) == boxes(s).remove(s[i].name@),
        forall|j: int| 0 <= j < s.remove(i).len() ==> s.remove(i)[j].name@ != s[i].name@,
        forall|j: int| 0 <= j < s.remove(i).len() ==> s.remove(i)[j].id != s[i].id,
{
    let r = s.remove(i);
    assert forall|j: int| 0 <= j < r.len() implies r[j] == (if j < i {
        s[j]
    } else {
        s[j + 1]
    }) by {}
    lemma_boxes_remove(s, i);
}

/// Putting a mailbox in under a name that no other holds keeps the
/// invariant and adds that name.
proof fn lemma_wf_push(s: Seq<Connection>, c: Connection, next_id: u64, users: Seq<User>)
    requires
        conns_wf(s, next_id, users),
        forall|j: int| 0 <= j < s.len() ==> s[j].name@ != c.name@,
        forall|j: int| 0 <= j < s.len() ==> s[j].id != c.id,
        c.id < next_id,
        c.status == ConnectionStatus::Cache ==> is_known(users, c.name@),
    ensures
        conns_wf(s.push(c), next_id, users),
        boxes(s.push(c)) == boxes(s).insert(c.name@, c@),
{
    assert(s.push(c).drop_last() =~= s);
    let t = s.push(c);
    assert forall|j: int| 0 <= j < s.len() implies t[j] == s[j] by {}
}

/// Swapping one mailbox for another with the same id, under the same name or
/// a name that no mailbox holds, keeps the invariant.
proof fn lemma_wf_replace(
    s: Seq<Connection>,
    i: int,
    c: Connection,
    next_id: u64,
    users: Seq<User>,
)
    requires
        conns_wf(s, next_id, users),
        0 <= i < s.len(),
        c.id == s[i].id,
        c.name@ == s[i].name@ || forall|j: int| 0 <= j < s.len() ==> s[j].name@ != c.name@,
        c.status == ConnectionStatus::Cache ==> is_known(users, c.name@),
    ensures
        conns_wf(s.remove(i).push(c), next_id, users),
        boxes(s.remove(i).push(c)) == boxes(s).remove(s[i].name@).insert(c.name@, c@),
{
    lemma_wf_remove(s, i, next_id, users);
    let r = s.remove(i);
    assert forall|j: int| 0 <= j < r.len() implies r[j].name@ != c.name@ by {
        assert(r[j] == (if j < i {
            s[j]
        } else {
            s[j + 1]
        }));
    }
    lemma_wf_push(r, c, next_id, users);
}

/// A larger next id keeps the invariant.
proof fn lemma_wf_bump(s: Seq<Connection>, next_id: u64, later: u64, users: Seq<User>)
    requires
        conns_wf(s, next_id, users),
        next_id <= later,
    ensures
        conns_wf(s, later, users),
{
}

/// The mailbox of `name`, if there is one, with one more response queued.
pub open spec fn with_pushed(m: Map<Seq<char>, MailboxView>, name: Seq<char>, x: ResponseView) -> Map<
    Seq<char>,
    MailboxView,
> {
    if m.contains_key(name) {
        m.insert(name, MailboxView { queue: m[name].queue.push(x), ..m[name] })
    } else {
        m
    }
}

/// `name` logged in: its `Cache` mailbox turns `Auth` and keeps its queue,
/// or a fresh empty `Auth` mailbox takes id `fresh`.
pub open spec fn with_login(m: Map<Seq<char>, MailboxView>, name: Seq<char>, fresh: u64) -> Map<
    Seq<char>,
    MailboxView,
> {
    if m.contains_key(name) {
        m.insert(name, MailboxView { status: ConnectionStatus::Auth, ..m[name] })
    } else {
        m.insert(
            name,
            MailboxView {
                id: fresh,
                name,
                status: ConnectionStatus::Auth,
                queue: Seq::empty(),
            },
        )
    }
}

/// `name` has a mailbox: the one it had, or a fresh empty `Cache` one.
pub open spec fn with_ensured(m: Map<Seq<char>, MailboxView>, name: Seq<char>, fresh: u64) -> Map<
    Seq<char>,
    MailboxView,
> {
    if m.contains_key(name) {
        m
    } else {
        m.insert(
            name,
            MailboxView {
                id: fresh,
                name,
                status: ConnectionStatus::Cache,
                queue: Seq::empty(),
            },
        )
    }
}

/// The mailbox of `name` emptied.
pub open spec fn with_drained(m: Map<Seq<char>, MailboxView>, name: Seq<char>) -> Map<
    Seq<char>,
    MailboxView,
> {
    m.insert(name, MailboxView { queue: Seq::empty(), ..m[name] })
}

/// The mailbox of `from` moved under `to`.
pub open spec fn with_renamed(m: Map<Seq<char>, MailboxView>, from: Seq<char>, to: Seq<char>) -> Map<
    Seq<char>,
    MailboxView,
> {
    m.remove(from).insert(to, MailboxView { name: to, ..m[from] })
}

/// Whether `name` has a live session in `m`.
pub open spec fn is_live(m: Map<Seq<char>, MailboxView>, name: Seq<char>) -> bool {
    m.contains_key(name) && m[name].status == ConnectionStatus::Auth
}

/// The registry, kept in memory.
pub struct MemoryBackend {
    pub data: BackendQueryData,
    pub conns: Vec<Connection>,
    pub next_id: u64,
}

impl MemoryBackend {
    pub open spec fn wf(&self) -> bool {
        conns_wf(self.conns@, self.next_id, self.data.users@)
    }

    /// The mailboxes, keyed by name.
    pub open spec fn mailboxes(&self) -> Map<Seq<char>, MailboxView> {
        boxes(self.conns@)
    }

    /// The user directory.
    pub open spec fn users(&self) -> Seq<User> {
        self.data.users@
    }

    /// What the invariant says of the mailboxes as a map.
    pub proof fn lemma_model(&self)
        requires
            self.wf(),
        ensures
            forall|n: Seq<char>| #[trigger]
                self.mailboxes().contains_key(n) ==> {
                    &&& self.mailboxes()[n].name == n
                    &&& self.mailboxes()[n].id < self.next_id
                    &&& (self.mailboxes()[n].status == ConnectionStatus::Cache ==> is_known(
                        self.users(),
                        n,
                    ))
                },
            forall|a: Seq<char>, b: Seq<char>|
                self.mailboxes().contains_key(a) && self.mailboxes().contains_key(b)
                    && self.mailboxes()[a].id == self.mailboxes()[b].id ==> a == b,
    {
        let s = self.conns@;
        lemma_boxes_dom(s);
        assert forall|n: Seq<char>| #[trigger] self.mailboxes().contains_key(n) implies {
            &&& self.mailboxes()[n].name == n
            &&& self.mailboxes()[n].id < self.next_id
            &&& (self.mailboxes()[n].status == ConnectionStatus::Cache ==> is_known(
                self.users(),
                n,
            ))
        } by {
            let i = choose|i: int| 0 <= i < s.len() && s[i].name@ == n;
            assert(boxes(s)[s[i].name@] == s[i]@);
        }
        assert forall|a: Seq<char>, b: Seq<char>|
            self.mailboxes().contains_key(a) && self.mailboxes().contains_key(b)
                && self.mailboxes()[a].id == self.mailboxes()[b].id implies a == b by {
            let i = choose|i: int| 0 <= i < s.len() && s[i].name@ == a;
            let j = choose|j: int| 0 <= j < s.len() && s[j].name@ == b;
            assert(boxes(s)[s[i].name@] == s[i]@);
            assert(boxes(s)[s[j].name@] == s[j]@);
        }
    }

    /// An empty registry over a directory.
    pub fn new(data: BackendQueryData) -> (r: Self)
        ensures
            r.wf(),
            r.mailboxes() == Map::<Seq<char>, MailboxView>::empty(),
            r.users() == data.users@,
    {
        MemoryBackend { data, conns: Vec::new(), next_id: 0 }
    }

    /// A registry over a directory as it is written down; fails with
    /// `NotFound` when a group names an unknown user.
    pub fn from_data(data: BackendData) -> (r: QuipResult<Self>)
        ensures
            match r {
                Ok(b) => {
                    &&& crate::data::all_members_known(data.users@, data.groups@)
                    &&& b.wf()
                    &&& b.mailboxes() == Map::<Seq<char>, MailboxView>::empty()
                    &&& b.users() == data.users@
                },
                Err(e) => !crate::data::all_members_known(data.users@, data.groups@)
                    && e is NotFound,
            },
    {
        let d = BackendQueryData::try_from(data)?;
        Ok(MemoryBackend::new(d))
    }

    /// Logs `name` in: checks the password against the directory, then turns
    /// its `Cache` mailbox `Auth` (keeping what it holds) or makes a fresh
    /// `Auth` mailbox. Returns the mailbox's id.
    pub fn load_conn(&mut self, name: &str, password: &str) -> (r: QuipResult<u64>)
        requires
            old(self).wf(),
        ensures
            final(self).wf(),
            final(self).users() == old(self).users(),
            r is Err ==> final(self).mailboxes() == old(self).mailboxes() && final(self).next_id
                == old(self).next_id,
            (r matches Err(QuipError::NotFound(_))) <==> password_of(old(self).users(), name@) is None,
            (r matches Err(QuipError::Unauthorized(_))) <==> (password_of(
                old(self).users(),
                name@,
            ) matches Some(p) && p != password@),
            (r matches Err(QuipError::Duplicate(_))) <==> password_of(old(self).users(), name@)
                == Some(password@) && is_live(old(self).mailboxes(), name@),
            (r matches Err(QuipError::Unknown(_))) <==> password_of(old(self).users(), name@) == Some(
                password@,
            ) && !old(self).mailboxes().contains_key(name@) && old(self).next_id == u64::MAX,
            !(r matches Err(QuipError::Disconnect)) && !(r matches Err(QuipError::Parse(_))),
            r matches Ok(id) ==> final(self).mailboxes() == with_login(
                old(self).mailboxes(),
                name@,
                old(self).next_id,
            ) && id == final(self).mailboxes()[name@].id,
    {
        let ghost s = self.conns@;
        proof {
            lemma_last_index(self.data.users@, name@);
            lemma_boxes_dom(s);
        }
        let k = match find_user(&self.data.users, name) {
            Some(k) => k,
            None => {
                let mut msg = "No user named ".to_owned();
                msg.append(name);
                return Err(QuipError::NotFound(msg));
            },
        };
        if self.data.users[k].password != password.to_owned() {
            let mut msg = "Incorrect password for user ".to_owned();
            msg.append(name);
            return Err(QuipError::Unauthorized(msg));
        }
        match self.index_of(name) {
            Some(i) => {
                if self.conns[i].status == ConnectionStatus::Auth {
                    let mut msg = "User exists: ".to_owned();
                    msg.append(name);
                    return Err(QuipError::Duplicate(msg));
                }
                let mut c = self.conns.remove(i);
                c.status = ConnectionStatus::Auth;
                let id = c.id;
                proof {
                    lemma_wf_replace(s, i as int, c, self.next_id, self.data.users@);
                }
                self.conns.push(c);
                proof {
                    assert(self.mailboxes() =~= with_login(boxes(s), name@, self.next_id));
                }
                Ok(id)
            },
            None => {
                if self.next_id == u64::MAX {
                    return Err(QuipError::Unknown("No mailbox id is left".to_owned()));
                }
                let id = self.next_id;
                let c = Connection::new(id, name, ConnectionStatus::Auth);
                proof {
                    lemma_wf_bump(s, id, (id + 1) as u64, self.data.users@);
                    lemma_wf_push(s, c, (id + 1) as u64, self.data.users@);
                }
                self.next_id = id + 1;
                self.conns.push(c);
                proof {
                    assert(self.mailboxes() =~= with_login(boxes(s), name@, id));
                }
                Ok(id)
            },
        }
    }

    /// Removes the mailbox of `name`, dropping what it holds. Nothing happens
    /// when there is none.
    pub fn unload_conn(&mut self, name: &str)
        requires
            old(self).wf(),
        ensures
            final(self).wf(),
            final(self).users() == old(self).users(),
            final(self).next_id == old(self).next_id,
            final(self).mailboxes() == old(self).mailboxes().remove(name@),
    {
        let ghost s = self.conns@;
        match self.index_of(name) {
            Some(i) => {
                proof {
                    lemma_wf_remove(s, i as int, self.next_id, self.data.users@);
                }
                let _ = self.conns.remove(i);
            },
            None => {
                proof {
                    assert(boxes(s).remove(name@) =~= boxes(s));
                }
            },
        }
    }

    /// The id of the mailbox of `name`.
    pub fn find_conn(&self, name: &str) -> (r: QuipResult<u64>)
        requires
            self.wf(),
        ensures
            match r {
                Ok(id) => self.mailboxes().contains_key(name@) && self.mailboxes()[name@].id == id,
                Err(e) => !self.mailboxes().contains_key(name@) && e is NotFound,
            },
    {
        proof {
            lemma_boxes_dom(self.conns@);
        }
        match self.index_of(name) {
            Some(i) => Ok(self.conns[i].id),
            None => {
                let mut msg = "No user named ".to_owned();
                msg.append(name);
                Err(QuipError::NotFound(msg))
            },
        }
    }

    /// The id of the mailbox of `name`, making an empty `Cache` one if the
    /// directory knows `name` and it has none.
    pub fn ensure_conn(&mut self, name: &str) -> (r: QuipResult<u64>)
        requires
            old(self).wf(),
        ensures
            final(self).wf(),
            final(self).users() == old(self).users(),
            r is Err ==> final(self).mailboxes() == old(self).mailboxes() && final(self).next_id
                == old(self).next_id,
            (r matches Err(QuipError::NotFound(_))) <==> !is_known(old(self).users(), name@),
            (r matches Err(QuipError::Unknown(_))) <==> is_known(old(self).users(), name@)
                && !old(self).mailboxes().contains_key(name@) && old(self).next_id == u64::MAX,
            r is Err ==> (r matches Err(QuipError::NotFound(_))) || (r matches Err(
                QuipError::Unknown(_),
            )),
            r matches Ok(id) ==> final(self).mailboxes() == with_ensured(
                old(self).mailboxes(),
                name@,
                old(self).next_id,
            ) && id == final(self).mailboxes()[name@].id,
    {
        let ghost s = self.conns@;
        proof {
            lemma_last_index(self.data.users@, name@);
            lemma_boxes_dom(s);
        }
        if find_user(&self.data.users, name).is_none() {
            let mut msg = "No user named ".to_owned();
            msg.append(name);
            return Err(QuipError::NotFound(msg));
        }
        match self.index_of(name) {
            Some(i) => Ok(self.conns[i].id),
            None => {
                if self.next_id == u64::MAX {
                    return Err(QuipError::Unknown("No mailbox id is left".to_owned()));
                }
                let id = self.next_id;
                let c = Connection::new(id, name, ConnectionStatus::Cache);
                proof {
                    lemma_wf_bump(s, id, (id + 1) as u64, self.data.users@);
                    lemma_wf_push(s, c, (id + 1) as u64, self.data.users@);
                }
                self.next_id = id + 1;
                self.conns.push(c);
                proof {
                    assert(self.mailboxes() =~= with_ensured(boxes(s), name@, id));
                }
                Ok(id)
            },
        }
    }

    /// Queues `resp` in the mailbox of `name`, if there is one. Returns the
    /// mailbox's id when its writer is to be woken, that is when the mailbox
    /// is `Auth`.
    pub fn push_resp(&mut self, name: &str, resp: Response) -> (r: Option<u64>)
        requires
            old(self).wf(),
        ensures
            final(self).wf(),
            final(self).users() == old(self).users(),
            final(self).next_id == old(self).next_id,
            final(self).mailboxes() == with_pushed(old(self).mailboxes(), name@, resp@),
            r == (if is_live(old(self).mailboxes(), name@) {
                Some(old(self).mailboxes()[name@].id)
            } else {
                None::<u64>
            }),
    {
        let ghost s = self.conns@;
        proof {
            lemma_boxes_dom(s);
        }
        match self.index_of(name) {
            Some(i) => {
                let mut c = self.conns.remove(i);
                let ghost q = c.queue@;
                c.queue.push(resp);
                let wake = if c.status == ConnectionStatus::Auth {
                    Some(c.id)
                } else {
                    None
                };
                proof {
                    assert(responses_view(c.queue@) =~= responses_view(q).push(resp@));
                    lemma_wf_replace(s, i as int, c, self.next_id, self.data.users@);
                }
                self.conns.push(c);
                proof {
                    assert(self.mailboxes() =~= with_pushed(boxes(s), name@, resp@));
                }
                wake
            },
            None => None,
        }
    }

    /// Takes every response queued in the mailbox with id `id`, oldest first,
    /// and leaves it empty.
    pub fn drain_conn(&mut self, id: u64) -> (r: Vec<Response>)
        requires
            old(self).wf(),
        ensures
            final(self).wf(),
            final(self).users() == old(self).users(),
            final(self).next_id == old(self).next_id,
            forall|n: Seq<char>| #[trigger]
                old(self).mailboxes().contains_key(n) && old(self).mailboxes()[n].id == id ==> {
                    &&& responses_view(r@) == old(self).mailboxes()[n].queue
                    &&& final(self).mailboxes() == with_drained(old(self).mailboxes(), n)
                },
            (forall|n: Seq<char>|
                old(self).mailboxes().contains_key(n) ==> old(self).mailboxes()[n].id != id) ==> {
                &&& r@.len() == 0
                &&& final(self).mailboxes() == old(self).mailboxes()
            },
    {
        let ghost s = self.conns@;
        proof {
            lemma_boxes_dom(s);
            self.lemma_model();
        }
        match self.index_of_id(id) {
            Some(i) => {
                let mut c = self.conns.remove(i);
                let mut out: Vec<Response> = Vec::new();
                std::mem::swap(&mut out, &mut c.queue);
                proof {
                    assert(responses_view(c.queue@) =~= Seq::<ResponseView>::empty());
                    lemma_wf_replace(s, i as int, c, self.next_id, self.data.users@);
                    assert(boxes(s).contains_key(s[i as int].name@));
                }
                self.conns.push(c);
                proof {
                    assert(self.mailboxes() =~= with_drained(boxes(s), s[i as int].name@));
                }
                out
            },
            None => {
                proof {
                    assert forall|n: Seq<char>| #[trigger]
                        boxes(s).contains_key(n) implies boxes(s)[n].id != id by {
                        let j = choose|j: int| 0 <= j < s.len() && s[j].name@ == n;
                        assert(boxes(s)[s[j].name@] == s[j]@);
                    }
                }
                Vec::new()
            },
        }
    }

    /// Moves the live session of `from` under the name `to`.
    pub fn rename_conn(&mut self, from: &str, to: &str) -> (r: QuipResult<()>)
        requires
            old(self).wf(),
        ensures
            final(self).wf(),
            final(self).users() == old(self).users(),
            final(self).next_id == old(self).next_id,
            r is Err ==> final(self).mailboxes() == old(self).mailboxes(),
            (r matches Err(QuipError::NotFound(_))) <==> !is_live(old(self).mailboxes(), from@),
            (r matches Err(QuipError::Duplicate(_))) <==> is_live(old(self).mailboxes(), from@)
                && old(self).mailboxes().contains_key(to@),
            r is Err ==> (r matches Err(QuipError::NotFound(_))) || (r matches Err(
                QuipError::Duplicate(_),
            )),
            r is Ok ==> final(self).mailboxes() == with_renamed(old(self).mailboxes(), from@, to@),
    {
        let ghost s = self.conns@;
        proof {
            lemma_boxes_dom(s);
        }
        let i = match self.index_of(from) {
            Some(i) => i,
            None => {
                let mut msg = "No user named ".to_owned();
                msg.append(from);
                return Err(QuipError::NotFound(msg));
            },
        };
        if self.conns[i].status != ConnectionStatus::Auth {
            let mut msg = "No session named ".to_owned();
            msg.append(from);
            return Err(QuipError::NotFound(msg));
        }
        if self.index_of(to).is_some() {
            let mut msg = "User exists: ".to_owned();
            msg.append(to);
            return Err(QuipError::Duplicate(msg));
        }
        let mut c = self.conns.remove(i);
        c.name = to.to_owned();
        proof {
            lemma_wf_replace(s, i as int, c, self.next_id, self.data.users@);
        }
        self.conns.push(c);
        proof {
            assert(self.mailboxes() =~= with_renamed(boxes(s), from@, to@));
        }
        Ok(())
    }

    /// The name of the mailbox with id `id`.
    pub fn name_of(&self, id: u64) -> (r: Option<String>)
        requires
            self.wf(),
        ensures
            match r {
                Some(n) => self.mailboxes().contains_key(n@) && self.mailboxes()[n@].id == id,
                None => forall|n: Seq<char>|
                    self.mailboxes().contains_key(n) ==> self.mailboxes()[n].id != id,
            },
    {
        let ghost s = self.conns@;
        proof {
            lemma_boxes_dom(s);
        }
        match self.index_of_id(id) {
            Some(i) => Some(self.conns[i].name.clone()),
            None => {
                proof {
                    assert forall|n: Seq<char>| #[trigger]
                        boxes(s).contains_key(n) implies boxes(s)[n].id != id by {
                        let j = choose|j: int| 0 <= j < s.len() && s[j].name@ == n;
                        assert(boxes(s)[s[j].name@] == s[j]@);
                    }
                }
                None
            },
        }
    }

    /// The position of the mailbox named `name`.
    fn index_of(&self, name: &str) -> (r: Option<usize>)
        requires
            self.wf(),
        ensures
            match r {
                Some(i) => i < self.conns@.len() && self.conns@[i as int].name@ == name@,
                None => forall|j: int|
                    0 <= j < self.conns@.len() ==> self.conns@[j].name@ != name@,
            },
            r is Some <==> self.mailboxes().contains_key(name@),
    {
        proof {
            lemma_boxes_dom(self.conns@);
        }
        let target = name.to_owned();
        let mut i: usize = 0;
        while i < self.conns.len()
            invariant
                self.wf(),
                0 <= i <= self.conns@.len(),
                target@ == name@,
                forall|j: int| 0 <= j < i ==> self.conns@[j].name@ != name@,
            decreases self.conns@.len() - i,
        {
            if self.conns[i].name == target {
                proof {
                    lemma_boxes_dom(self.conns@);
                    assert(boxes(self.conns@).contains_key(self.conns@[i as int].name@));
                }
                return Some(i);
            }
            i = i + 1;
        }
        None
    }

    /// The position of the mailbox with id `id`.
    fn index_of_id(&self, id: u64) -> (r: Option<usize>)
        requires
            self.wf(),
        ensures
            match r {
                Some(i) => i < self.conns@.len() && self.conns@[i as int].id == id,
                None => forall|j: int| 0 <= j < self.conns@.len() ==> self.conns@[j].id != id,
            },
    {
        let mut i: usize = 0;
        while i < self.conns.len()
            invariant
                0 <= i <= self.conns@.len(),
                forall|j: int| 0 <= j < i ==> self.conns@[j].id != id,
            decreases self.conns@.len() - i,
        {
            if self.conns[i].id == id {
                return Some(i);
            }
            i = i + 1;
        }
        None
    }
}

} // verus!
