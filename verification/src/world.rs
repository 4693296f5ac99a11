use vstd::prelude::*;
use crate::kinematics::{KinematicState, kin_wf};

verus! {

/// The presence record of one identity: whether it is connected and
/// which room it is counted in (zero meaning none), together with its
/// kinematic record.
#[derive(Clone, Copy, PartialEq, Eq, Structural, Debug)]
pub struct User {
    pub identity: u64,
    pub online: bool,
    pub lobby_id: u64,
    pub kin: KinematicState,
}

/// A capacity-bounded room: a unique nonzero id assigned at creation,
/// and the occupancy counter maintained by the allocator.
#[derive(Clone, Copy, PartialEq, Eq, Structural, Debug)]
pub struct Lobby {
    pub id: u64,
    pub player_count: u32,
}

/// The whole server-held state, as the contracts speak of it.
pub struct WorldView {
    pub capacity: u32,
    pub next_lobby_id: u64,
    pub lobbies: Seq<Lobby>,
    pub users: Seq<User>,
}

/// The server-held state: the room and presence tables, the capacity
/// ceiling of the deployment, and the next fresh room id. Scan order is
/// the order of the vectors, which insertion keeps stable.
pub struct World {
    pub capacity: u32,
    pub next_lobby_id: u64,
    pub lobbies: Vec<Lobby>,
    pub users: Vec<User>,
}

impl View for World {
    type V = WorldView;

    open spec fn view(&self) -> WorldView {
        WorldView {
            capacity: self.capacity,
            next_lobby_id: self.next_lobby_id,
            lobbies: self.lobbies@,
            users: self.users@,
        }
    }
}

/// The index of the first user record with the given identity, in scan
/// order.
pub open spec fn find_user_idx(users: Seq<User>, identity: u64) -> Option<int>
    decreases users.len(),
{
    if users.len() == 0 {
        None
    } else if users[0].identity == identity {
        Some(0)
    } else {
        match find_user_idx(users.drop_first(), identity) {
            Some(i) => Some(i + 1),
            None => None,
        }
    }
}

/// The index of the room record with the given id, in scan order.
pub open spec fn find_lobby_idx(lobbies: Seq<Lobby>, lobby_id: u64) -> Option<int>
    decreases lobbies.len(),
{
    if lobbies.len() == 0 {
        None
    } else if lobbies[0].id == lobby_id {
        Some(0)
    } else {
        match find_lobby_idx(lobbies.drop_first(), lobby_id) {
            Some(i) => Some(i + 1),
            None => None,
        }
    }
}

/// The index of the first room with spare capacity, in scan order: the
/// first-fit rule of the allocator.
pub open spec fn first_fit_idx(lobbies: Seq<Lobby>, capacity: u32) -> Option<int>
    decreases lobbies.len(),
{
    if lobbies.len() == 0 {
        None
    } else if lobbies[0].player_count < capacity {
        Some(0)
    } else {
        match first_fit_idx(lobbies.drop_first(), capacity) {
            Some(i) => Some(i + 1),
            None => None,
        }
    }
}

/// What `find_user_idx` returns: the first match in scan order, or
/// nothing when no record matches.
pub proof fn lemma_find_user_idx_spec(users: Seq<User>, identity: u64)
    ensures
        match find_user_idx(users, identity) {
            Some(i) => 0 <= i < users.len() && users[i].identity == identity && forall|j: int|
                0 <= j < i ==> (#[trigger] users[j]).identity != identity,
            None => forall|j: int|
                0 <= j < users.len() ==> (#[trigger] users[j]).identity != identity,
        },
    decreases users.len(),
{
    if users.len() != 0 && users[0].identity != identity {
        let rest = users.drop_first();
        lemma_find_user_idx_spec(rest, identity);
        assert(forall|j: int| 0 <= j < rest.len() ==> #[trigger] rest[j] == users[j + 1]);
        match find_user_idx(rest, identity) {
            Some(i) => {
                assert(users[i + 1] == rest[i]);
                assert forall|j: int| 0 <= j < i + 1 implies (#[trigger] users[j]).identity
                    != identity by {
                    if j > 0 {
                        assert(users[j] == rest[j - 1]);
                    }
                }
            },
            None => {
                assert forall|j: int| 0 <= j < users.len() implies (#[trigger] users[j]).identity
                    != identity by {
                    if j > 0 {
                        assert(users[j] == rest[j - 1]);
                    }
                }
            },
        }
    }
}

/// What `find_lobby_idx` returns: the first match in scan order, or
/// nothing when no record matches.
pub proof fn lemma_find_lobby_idx_spec(lobbies: Seq<Lobby>, lobby_id: u64)
    ensures
        match find_lobby_idx(lobbies, lobby_id) {
            Some(i) => 0 <= i < lobbies.len() && lobbies[i].id == lobby_id && forall|j: int|
                0 <= j < i ==> (#[trigger] lobbies[j]).id != lobby_id,
            None => forall|j: int|
                0 <= j < lobbies.len() ==> (#[trigger] lobbies[j]).id != lobby_id,
        },
    decreases lobbies.len(),
{
    if lobbies.len() != 0 && lobbies[0].id != lobby_id {
        let rest = lobbies.drop_first();
        lemma_find_lobby_idx_spec(rest, lobby_id);
        assert(forall|j: int| 0 <= j < rest.len() ==> #[trigger] rest[j] == lobbies[j + 1]);
        match find_lobby_idx(rest, lobby_id) {
            Some(i) => {
                assert(lobbies[i + 1] == rest[i]);
                assert forall|j: int| 0 <= j < i + 1 implies (#[trigger] lobbies[j]).id
                    != lobby_id by {
                    if j > 0 {
                        assert(lobbies[j] == rest[j - 1]);
                    }
                }
            },
            None => {
                assert forall|j: int| 0 <= j < lobbies.len() implies (#[trigger] lobbies[j]).id
                    != lobby_id by {
                    if j > 0 {
                        assert(lobbies[j] == rest[j - 1]);
                    }
                }
            },
        }
    }
}

/// What `first_fit_idx` returns: the first room with spare capacity in
/// scan order, or nothing when every room is full.
pub proof fn lemma_first_fit_idx_spec(lobbies: Seq<Lobby>, capacity: u32)
    ensures
        match first_fit_idx(lobbies, capacity) {
            Some(i) => 0 <= i < lobbies.len() && lobbies[i].player_count < capacity
                && forall|j: int|
                0 <= j < i ==> (#[trigger] lobbies[j]).player_count >= capacity,
            None => forall|j: int|
                0 <= j < lobbies.len() ==> (#[trigger] lobbies[j]).player_count >= capacity,
        },
    decreases lobbies.len(),
{
    if lobbies.len() != 0 && lobbies[0].player_count >= capacity {
        let rest = lobbies.drop_first();
        lemma_first_fit_idx_spec(rest, capacity);
        assert(forall|j: int| 0 <= j < rest.len() ==> #[trigger] rest[j] == lobbies[j + 1]);
        match first_fit_idx(rest, capacity) {
            Some(i) => {
                assert(lobbies[i + 1] == rest[i]);
                assert forall|j: int| 0 <= j < i + 1 implies (
                #[trigger] lobbies[j]).player_count >= capacity by {
                    if j > 0 {
                        assert(lobbies[j] == rest[j - 1]);
                    }
                }
            },
            None => {
                assert forall|j: int| 0 <= j < lobbies.len() implies (
                #[trigger] lobbies[j]).player_count >= capacity by {
                    if j > 0 {
                        assert(lobbies[j] == rest[j - 1]);
                    }
                }
            },
        }
    }
}

/// How many user records reference the given room.
pub open spec fn count_assigned(users: Seq<User>, lobby_id: u64) -> nat
    decreases users.len(),
{
    if users.len() == 0 {
        0
    } else {
        count_assigned(users.drop_last(), lobby_id) + if users.last().lobby_id == lobby_id {
            1nat
        } else {
            0nat
        }
    }
}

/// Appending a user record raises the reference count of exactly the
/// room the record points at.
pub proof fn lemma_count_push(users: Seq<User>, u: User, lobby_id: u64)
    ensures
        count_assigned(users.push(u), lobby_id) == count_assigned(users, lobby_id) + if u.lobby_id
            == lobby_id {
            1nat
        } else {
            0nat
        },
{
    assert(users.push(u).drop_last() =~= users);
}

/// Replacing one user record moves the reference counts by the one
/// record's leaving and arriving room.
pub proof fn lemma_count_update(users: Seq<User>, i: int, u: User, lobby_id: u64)
    requires
        0 <= i < users.len(),
    ensures
        count_assigned(users.update(i, u), lobby_id) as int == count_assigned(users, lobby_id)
            as int - (if users[i].lobby_id == lobby_id {
            1int
        } else {
            0int
        }) + (if u.lobby_id == lobby_id {
            1int
        } else {
            0int
        }),
    decreases users.len(),
{
    let s2 = users.update(i, u);
    if i == users.len() - 1 {
        assert(s2.drop_last() =~= users.drop_last());
        assert(s2.last() == u);
    } else {
        assert(s2.drop_last() =~= users.drop_last().update(i, u));
        assert(s2.last() == users.last());
        lemma_count_update(users.drop_last(), i, u, lobby_id);
    }
}

/// No user record references the given room exactly when its reference
/// count is zero.
pub proof fn lemma_count_zero(users: Seq<User>, lobby_id: u64)
    requires
        forall|i: int| 0 <= i < users.len() ==> (#[trigger] users[i]).lobby_id != lobby_id,
    ensures
        count_assigned(users, lobby_id) == 0,
    decreases users.len(),
{
    if users.len() > 0 {
        lemma_count_zero(users.drop_last(), lobby_id);
    }
}

/// Two user tables that carry the same identities in the same order are
/// searched alike.
pub proof fn lemma_find_user_idx_same_identities(u1: Seq<User>, u2: Seq<User>, identity: u64)
    requires
        u1.len() == u2.len(),
        forall|i: int| 0 <= i < u1.len() ==> (#[trigger] u1[i]).identity == u2[i].identity,
    ensures
        find_user_idx(u1, identity) == find_user_idx(u2, identity),
    decreases u1.len(),
{
    if u1.len() > 0 {
        let r1 = u1.drop_first();
        let r2 = u2.drop_first();
        assert(forall|i: int| 0 <= i < r1.len() ==> (#[trigger] r1[i]).identity == r2[i].identity)
            by {
            assert(forall|i: int|
                0 <= i < r1.len() ==> #[trigger] r1[i] == u1[i + 1] && r2[i] == u2[i + 1]);
        }
        lemma_find_user_idx_same_identities(r1, r2, identity);
    }
}

/// Two room tables that carry the same ids in the same order are
/// searched alike.
pub proof fn lemma_find_lobby_idx_same_ids(l1: Seq<Lobby>, l2: Seq<Lobby>, lobby_id: u64)
    requires
        l1.len() == l2.len(),
        forall|k: int| 0 <= k < l1.len() ==> (#[trigger] l1[k]).id == l2[k].id,
    ensures
        find_lobby_idx(l1, lobby_id) == find_lobby_idx(l2, lobby_id),
    decreases l1.len(),
{
    if l1.len() > 0 {
        let r1 = l1.drop_first();
        let r2 = l2.drop_first();
        assert(forall|k: int| 0 <= k < r1.len() ==> (#[trigger] r1[k]).id == r2[k].id) by {
            assert(forall|k: int|
                0 <= k < r1.len() ==> #[trigger] r1[k] == l1[k + 1] && r2[k] == l2[k + 1]);
        }
        lemma_find_lobby_idx_same_ids(r1, r2, lobby_id);
    }
}

/// Room records are well formed: ids start at one, stay below the next
/// fresh id, strictly increase in scan order, and every occupancy
/// respects the capacity ceiling.
pub open spec fn lobbies_wf(lobbies: Seq<Lobby>, next_lobby_id: u64, capacity: u32) -> bool {
    &&& forall|i: int| 0 <= i < lobbies.len() ==> 1 <= (#[trigger] lobbies[i]).id < next_lobby_id
    &&& forall|i: int, j: int|
        0 <= i < j < lobbies.len() ==> (#[trigger] lobbies[i]).id < (#[trigger] lobbies[j]).id
    &&& forall|i: int| 0 <= i < lobbies.len() ==> (#[trigger] lobbies[i]).player_count <= capacity
}

/// Some room record carries the given id.
pub open spec fn lobby_exists(lobbies: Seq<Lobby>, lobby_id: u64) -> bool {
    exists|j: int| 0 <= j < lobbies.len() && (#[trigger] lobbies[j]).id == lobby_id
}

/// User records are well formed: identities are unique, a nonzero room
/// reference points at an existing room, and every stored direction is
/// bounded.
pub open spec fn users_wf(users: Seq<User>, lobbies: Seq<Lobby>) -> bool {
    &&& forall|i: int, j: int|
        0 <= i < j < users.len() ==> (#[trigger] users[i]).identity != (
        #[trigger] users[j]).identity
    &&& forall|i: int|
        0 <= i < users.len() && (#[trigger] users[i]).lobby_id != 0 ==> lobby_exists(
            lobbies,
            users[i].lobby_id,
        )
    &&& forall|i: int| 0 <= i < users.len() ==> kin_wf((#[trigger] users[i]).kin)
}

/// Each room's occupancy equals the number of user records that
/// reference it: the denormalized counter carries no drift.
pub open spec fn counts_wf(lobbies: Seq<Lobby>, users: Seq<User>) -> bool {
    forall|j: int|
        0 <= j < lobbies.len() ==> (#[trigger] lobbies[j]).player_count == count_assigned(
            users,
            lobbies[j].id,
        )
}

impl WorldView {
    /// Well-formedness of the whole server-held state; every operation
    /// preserves it. Its capacity clause is the global capacity bound
    /// and its count clause ties each occupancy to actual membership.
    pub open spec fn wf(self) -> bool {
        &&& self.capacity >= 1
        &&& self.next_lobby_id >= 1
        &&& lobbies_wf(self.lobbies, self.next_lobby_id, self.capacity)
        &&& users_wf(self.users, self.lobbies)
        &&& counts_wf(self.lobbies, self.users)
    }
}

impl World {
    /// A fresh world with no rooms and no users.
    pub fn new(capacity: u32) -> (w: World)
        requires
            capacity >= 1,
        ensures
            w@ == (WorldView {
                capacity,
                next_lobby_id: 1,
                lobbies: Seq::<Lobby>::empty(),
                users: Seq::<User>::empty(),
            }),
            w@.wf(),
    {
        World { capacity, next_lobby_id: 1, lobbies: Vec::new(), users: Vec::new() }
    }

    /// The position of the user record with the given identity, in scan
    /// order.
    pub(crate) fn find_user_pos(&self, identity: u64) -> (r: Option<usize>)
        ensures
            match r {
                Some(i) => find_user_idx(self@.users, identity) == Some(i as int),
                None => find_user_idx(self@.users, identity) is None,
            },
    {
        let mut i: usize = 0;
        while i < self.users.len()
            invariant
                0 <= i <= self@.users.len(),
                forall|j: int| 0 <= j < i ==> (#[trigger] self@.users[j]).identity != identity,
            decreases self@.users.len() - i,
        {
            if self.users[i].identity == identity {
                proof {
                    lemma_find_user_idx_spec(self@.users, identity);
                }
                return Some(i);
            }
            i = i + 1;
        }
        proof {
            lemma_find_user_idx_spec(self@.users, identity);
        }
        None
    }

    /// The position of the room record with the given id, in scan
    /// order.
    pub(crate) fn find_lobby_pos(&self, lobby_id: u64) -> (r: Option<usize>)
        ensures
            match r {
                Some(i) => find_lobby_idx(self@.lobbies, lobby_id) == Some(i as int),
                None => find_lobby_idx(self@.lobbies, lobby_id) is None,
            },
    {
        let mut i: usize = 0;
        while i < self.lobbies.len()
            invariant
                0 <= i <= self@.lobbies.len(),
                forall|j: int| 0 <= j < i ==> (#[trigger] self@.lobbies[j]).id != lobby_id,
            decreases self@.lobbies.len() - i,
        {
            if self.lobbies[i].id == lobby_id {
                proof {
                    lemma_find_lobby_idx_spec(self@.lobbies, lobby_id);
                }
                return Some(i);
            }
            i = i + 1;
        }
        proof {
            lemma_find_lobby_idx_spec(self@.lobbies, lobby_id);
        }
        None
    }

    /// The position of the first room with spare capacity, in scan
    /// order.
    pub(crate) fn first_fit_pos(&self) -> (r: Option<usize>)
        ensures
            match r {
                Some(i) => first_fit_idx(self@.lobbies, self.capacity) == Some(i as int),
                None => first_fit_idx(self@.lobbies, self.capacity) is None,
            },
    {
        let mut i: usize = 0;
        while i < self.lobbies.len()
            invariant
                0 <= i <= self@.lobbies.len(),
                forall|j: int|
                    0 <= j < i ==> (#[trigger] self@.lobbies[j]).player_count >= self.capacity,
            decreases self@.lobbies.len() - i,
        {
            if self.lobbies[i].player_count < self.capacity {
                proof {
                    lemma_first_fit_idx_spec(self@.lobbies, self.capacity);
                }
                return Some(i);
            }
            i = i + 1;
        }
        proof {
            lemma_first_fit_idx_spec(self@.lobbies, self.capacity);
        }
        None
    }

    /// The room record with the given id, if any.
    pub fn get_lobby(&self, lobby_id: u64) -> (r: Option<Lobby>)
        ensures
            match r {
                Some(l) => find_lobby_idx(self@.lobbies, lobby_id) matches Some(j)
                    && self@.lobbies[j] == l,
                None => find_lobby_idx(self@.lobbies, lobby_id) is None,
            },
    {
        proof {
            lemma_find_lobby_idx_spec(self@.lobbies, lobby_id);
        }
        match self.find_lobby_pos(lobby_id) {
            Some(i) => Some(self.lobbies[i]),
            None => None,
        }
    }

    /// The user record with the given identity, if any.
    pub fn get_user(&self, identity: u64) -> (r: Option<User>)
        ensures
            match r {
                Some(u) => find_user_idx(self@.users, identity) matches Some(i)
                    && self@.users[i] == u,
                None => find_user_idx(self@.users, identity) is None,
            },
    {
        proof {
            lemma_find_user_idx_spec(self@.users, identity);
        }
        match self.find_user_pos(identity) {
            Some(i) => Some(self.users[i]),
            None => None,
        }
    }

    /// Recomputes one room's occupancy by counting the user records
    /// that reference it: the reconciliation pass that detects drift of
    /// the denormalized counter (under well-formedness there is none).
    pub fn audit_occupancy(&self, lobby_id: u64) -> (r: u64)
        ensures
            r == count_assigned(self@.users, lobby_id),
    {
        let mut cnt: u64 = 0;
        let mut i: usize = 0;
        while i < self.users.len()
            invariant
                0 <= i <= self@.users.len(),
                cnt == count_assigned(self@.users.take(i as int), lobby_id),
                cnt <= i,
            decreases self@.users.len() - i,
        {
            proof {
                assert(self@.users.take(i as int + 1).drop_last() =~= self@.users.take(i as int));
                assert(self@.users.take(i as int + 1).last() == self@.users[i as int]);
            }
            if self.users[i].lobby_id == lobby_id {
                cnt = cnt + 1;
            }
            i = i + 1;
        }
        proof {
            assert(self@.users.take(self@.users.len() as int) =~= self@.users);
        }
        cnt
    }
}

} // verus!
