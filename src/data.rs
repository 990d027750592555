//! The static user directory: user records and groups, loaded once.
use vstd::prelude::*;
use crate::error::{QuipError, QuipResult};

verus! {

/// A user record: a unique name and its password.
#[derive(Debug)]
pub struct User {
    pub name: String,
    pub password: String,
}

/// A named group of users. Groups are reserved: nothing routes to them yet.
#[derive(Debug)]
pub struct Group {
    pub name: String,
    pub users: Vec<String>,
}

/// The directory as it is written down.
#[derive(Debug)]
pub struct BackendData {
    pub users: Vec<User>,
    pub groups: Vec<Group>,
}

impl BackendData {
    pub fn new(users: Vec<User>, groups: Vec<Group>) -> (r: Self)
        ensures
            r.users == users,
            r.groups == groups,
    {
        BackendData { users, groups }
    }
}

/// A group with each member resolved to its index in the user list.
#[derive(Debug)]
pub struct QueryGroup(pub Group, pub Vec<usize>);

/// The directory ready for lookups.
#[derive(Debug)]
pub struct BackendQueryData {
    pub users: Vec<User>,
    pub groups: Vec<QueryGroup>,
}

/// The index of the last user named `name`, or -1. A later record of a
/// name takes the place of an earlier one.
pub open spec fn last_index(users: Seq<User>, name: Seq<char>) -> int
    decreases users.len(),
{
    if users.len() == 0 {
        -1
    } else if users.last().name@ == name {
        users.len() - 1
    } else {
        last_index(users.drop_last(), name)
    }
}

/// The password of `name`, if the directory knows it.
pub open spec fn password_of(users: Seq<User>, name: Seq<char>) -> Option<Seq<char>> {
    let i = last_index(users, name);
    if 0 <= i < users.len() {
        Some(users[i].password@)
    } else {
        None
    }
}

/// Whether the directory knows `name`.
pub open spec fn is_known(users: Seq<User>, name: Seq<char>) -> bool {
    password_of(users, name) is Some
}

pub proof fn lemma_last_index(users: Seq<User>, name: Seq<char>)
    ensures
        -1 <= last_index(users, name) < users.len(),
        last_index(users, name) >= 0 ==> users[last_index(users, name)].name@ == name,
        last_index(users, name) == -1 ==> forall|j: int|
            0 <= j < users.len() ==> users[j].name@ != name,
    decreases users.len(),
{
    if users.len() > 0 {
        lemma_last_index(users.drop_last(), name);
        if users.last().name@ != name {
            let i = last_index(users, name);
            if i >= 0 {
                assert(users[i] == users.drop_last()[i]);
            } else {
                assert forall|j: int| 0 <= j < users.len() implies users[j].name@ != name by {
                    if j < users.len() - 1 {
                        assert(users[j] == users.drop_last()[j]);
                    }
                }
            }
        }
    }
}

/// The index of the record of `name` that counts.
pub fn find_user(users: &Vec<User>, name: &str) -> (r: Option<usize>)
    ensures
        match r {
            Some(i) => i == last_index(users@, name@),
            None => last_index(users@, name@) == -1,
        },
{
    let mut best: Option<usize> = None;
    let mut i: usize = 0;
    while i < users.len()
        invariant
            0 <= i <= users@.len(),
            match best {
                Some(b) => b == last_index(users@.take(i as int), name@),
                None => last_index(users@.take(i as int), name@) == -1,
            },
        decreases users@.len() - i,
    {
        proof {
            assert(users@.take(i + 1).drop_last() =~= users@.take(i as int));
        }
        if users[i].name == name.to_owned() {
            best = Some(i);
        }
        i = i + 1;
    }
    proof {
        assert(users@.take(users@.len() as int) =~= users@);
    }
    best
}

/// Whether every member of every group is a known user.
pub open spec fn members_known(users: Seq<User>, g: Group) -> bool {
    forall|j: int| 0 <= j < g.users@.len() ==> last_index(users, #[trigger] g.users@[j]@) >= 0
}

/// Resolves the members of a group, or fails with `NotFound` on the first
/// member that the directory does not know.
pub fn group_to_query(group: Group, users: &Vec<User>) -> (r: QuipResult<QueryGroup>)
    ensures
        match r {
            Ok(q) => {
                &&& members_known(users@, group)
                &&& q.0 == group
                &&& q.1@.len() == group.users@.len()
                &&& forall|j: int|
                    0 <= j < q.1@.len() ==> q.1@[j] as int == last_index(
                        users@,
                        group.users@[j]@,
                    )
            },
            Err(e) => !members_known(users@, group) && e is NotFound,
        },
{
    let mut idx: Vec<usize> = Vec::new();
    let mut j: usize = 0;
    while j < group.users.len()
        invariant
            0 <= j <= group.users@.len(),
            idx@.len() == j,
            forall|k: int|
                0 <= k < j ==> idx@[k] as int == last_index(users@, group.users@[k]@),
        decreases group.users@.len() - j,
    {
        match find_user(users, group.users[j].as_str()) {
            Some(i) => idx.push(i),
            None => {
                let mut msg = "User named ".to_owned();
                msg.append(group.users[j].as_str());
                msg.append(" required in ");
                msg.append(group.name.as_str());
                msg.append(" does not exist");
                return Err(QuipError::NotFound(msg));
            },
        }
        j = j + 1;
    }
    proof {
        assert forall|k: int| 0 <= k < group.users@.len() implies last_index(
            users@,
            #[trigger] group.users@[k]@,
        ) >= 0 by {
            assert(idx@[k] as int == last_index(users@, group.users@[k]@));
        }
    }
    Ok(QueryGroup(group, idx))
}

/// Whether every group of `groups` has only known members.
pub open spec fn all_members_known(users: Seq<User>, groups: Seq<Group>) -> bool {
    forall|i: int| 0 <= i < groups.len() ==> members_known(users, #[trigger] groups[i])
}

impl BackendQueryData {
    /// Prepares the directory for lookups; fails with `NotFound` when a group
    /// names an unknown user.
    pub fn try_from(value: BackendData) -> (r: QuipResult<BackendQueryData>)
        ensures
            match r {
                Ok(d) => {
                    &&& all_members_known(value.users@, value.groups@)
                    &&& d.users@ == value.users@
                    &&& d.groups@.len() == value.groups@.len()
                    &&& forall|i: int| 0 <= i < d.groups@.len() ==> (#[trigger] d.groups@[i]).0 == value.groups@[i]
                },
                Err(e) => !all_members_known(value.users@, value.groups@) && e is NotFound,
            },
    {
        let users = value.users;
        let mut groups = value.groups;
        let ghost gs = groups@;
        let mut out: Vec<QueryGroup> = Vec::new();
        while groups.len() > 0
            invariant
                gs == value.groups@,
                users@ == value.users@,
                out@.len() + groups@.len() == gs.len(),
                groups@ == gs.subrange(out@.len() as int, gs.len() as int),
                forall|i: int| 0 <= i < out@.len() ==> (#[trigger] out@[i]).0 == gs[i],
                forall|i: int| 0 <= i < out@.len() ==> members_known(users@, #[trigger] gs[i]),
            decreases groups@.len(),
        {
            let g = groups.remove(0);
            let ghost at = out@.len() as int;
            assert(g == gs[at]);
            match group_to_query(g, &users) {
                Ok(q) => out.push(q),
                Err(e) => {
                    proof {
                        assert(!members_known(users@, gs[at]));
                        assert(value.groups@[at] == gs[at]);
                    }
                    return Err(e);
                },
            }
            proof {
                assert(groups@ =~= gs.subrange(out@.len() as int, gs.len() as int));
            }
        }
        Ok(BackendQueryData { users, groups: out })
    }
}

} // verus!
