use vstd::prelude::*;
use crate::lobby::{
    assign_t, release_t, pick_or_create, lemma_assign_wf, lemma_pick_or_create_wf,
};
use crate::presence::{
    connect_t, disconnect_t, initial_kin, lemma_disconnect_wf, lemma_user_push_wf,
    lemma_user_field_update_wf,
};
use crate::vectors::Vector3;
use crate::world::{
    WorldView, User, Lobby, find_user_idx, find_lobby_idx, first_fit_idx, count_assigned,
    lobby_exists, lemma_find_user_idx_spec, lemma_find_lobby_idx_spec, lemma_first_fit_idx_spec,
    lemma_find_user_idx_same_identities, lemma_find_lobby_idx_same_ids, lemma_count_update,
    lemma_count_push, lemma_count_zero,
};

verus! {

/// The room the identified user is counted in, zero for none or for an
/// unknown identity.
pub open spec fn user_lobby(w: WorldView, identity: u64) -> u64 {
    match find_user_idx(w.users, identity) {
        Some(ui) => w.users[ui].lobby_id,
        None => 0,
    }
}

/// Whether the identified user is marked online; an unknown identity is
/// not.
pub open spec fn user_online(w: WorldView, identity: u64) -> bool {
    match find_user_idx(w.users, identity) {
        Some(ui) => w.users[ui].online,
        None => false,
    }
}

/// The occupancy of the identified room, zero for an unknown id.
pub open spec fn lobby_count(w: WorldView, lobby_id: u64) -> u32 {
    match find_lobby_idx(w.lobbies, lobby_id) {
        Some(j) => w.lobbies[j].player_count,
        None => 0,
    }
}

/// The capacity bound: in every well-formed state, every room's
/// occupancy stays at or below the deployment's ceiling. Every
/// operation of this core returns a well-formed state, so the bound
/// holds across any operation history.
pub proof fn lemma_capacity_bound(w: WorldView)
    requires
        w.wf(),
    ensures
        forall|k: int|
            0 <= k < w.lobbies.len() ==> (#[trigger] w.lobbies[k]).player_count <= w.capacity,
{
}

/// Releasing an occupant from a room that is already empty leaves the
/// state — and so the room's zero occupancy — exactly as it was;
/// occupancy never goes negative.
pub proof fn lemma_release_empty(w: WorldView, lobby_id: u64)
    requires
        match find_lobby_idx(w.lobbies, lobby_id) {
            Some(j) => w.lobbies[j].player_count == 0,
            None => true,
        },
    ensures
        release_t(w, lobby_id) == w,
{
}

/// Assignment consistency: when assignment gives the user a room, that
/// room's occupancy rises by exactly one — over both the stored counter
/// and actual membership — every other room keeps its record untouched,
/// and the user record references the room. A room is owed (a nonzero
/// target) unless every room is full and the id space is exhausted.
pub proof fn lemma_assign_consistency(w: WorldView, identity: u64)
    requires
        w.wf(),
        match find_user_idx(w.users, identity) {
            Some(ui) => w.users[ui].lobby_id == 0,
            None => false,
        },
    ensures
        ({
            let w1 = assign_t(w, identity).0;
            let target = assign_t(w, identity).1;
            &&& (target == 0 <==> first_fit_idx(w.lobbies, w.capacity) is None && w.next_lobby_id
                == u64::MAX)
            &&& target != 0 ==> match find_lobby_idx(w1.lobbies, target) {
                Some(j) => w1.lobbies[j].player_count == count_assigned(w.users, target) + 1,
                None => false,
            }
            &&& target != 0 ==> count_assigned(w1.users, target) == count_assigned(w.users, target)
                + 1
            &&& user_lobby(w1, identity) == target
            &&& forall|k: int|
                0 <= k < w.lobbies.len() && (#[trigger] w.lobbies[k]).id != target
                    ==> (find_lobby_idx(w1.lobbies, w.lobbies[k].id) matches Some(j2)
                    && w1.lobbies[j2] == w.lobbies[k])
        }),
{
    let picked = pick_or_create(w);
    let lobbies1 = picked.0;
    let target = picked.2;
    let w1 = assign_t(w, identity).0;
    lemma_find_user_idx_spec(w.users, identity);
    lemma_first_fit_idx_spec(w.lobbies, w.capacity);
    lemma_pick_or_create_wf(w);
    let ui = find_user_idx(w.users, identity)->Some_0;
    let u1 = User {
        identity: w.users[ui].identity,
        online: w.users[ui].online,
        lobby_id: target,
        kin: w.users[ui].kin,
    };
    let users1 = w.users.update(ui, u1);
    lemma_find_user_idx_same_identities(users1, w.users, identity);
    if target == 0 {
        assert(users1 =~= w.users);
        assert forall|k: int|
            0 <= k < w.lobbies.len() && (#[trigger] w.lobbies[k]).id != target implies
            find_lobby_idx(w1.lobbies, w.lobbies[k].id) matches Some(j2) && w1.lobbies[j2]
            == w.lobbies[k] by {
            assert(w1.lobbies == w.lobbies);
            lemma_find_lobby_idx_spec(w.lobbies, w.lobbies[k].id);
            assert(lobby_exists(w.lobbies, w.lobbies[k].id));
            let j2 = find_lobby_idx(w.lobbies, w.lobbies[k].id)->Some_0;
            assert(w.lobbies[j2].id == w.lobbies[k].id);
            if j2 < k {
                assert(w.lobbies[j2].id < w.lobbies[k].id);
            } else if k < j2 {
                assert(w.lobbies[k].id < w.lobbies[j2].id);
            }
        }
    } else {
        lemma_find_lobby_idx_spec(lobbies1, target);
        let j = find_lobby_idx(lobbies1, target)->Some_0;
        lemma_count_update(w.users, ui, u1, target);
        // the target's stored counter was its membership count before
        match first_fit_idx(w.lobbies, w.capacity) {
            Some(jf) => {
                assert(j == jf) by {
                    if j < jf {
                        assert(lobbies1[j].id < lobbies1[jf].id);
                    } else if jf < j {
                        assert(lobbies1[jf].id < lobbies1[j].id);
                    }
                }
                assert(lobbies1[j].player_count == count_assigned(w.users, target));
            },
            None => {
                let len = w.lobbies.len() as int;
                assert(j == len) by {
                    if j < len {
                        assert(lobbies1[j] == w.lobbies[j]);
                        assert(w.lobbies[j].id < w.next_lobby_id);
                    }
                }
                assert forall|i: int| 0 <= i < w.users.len() implies (
                #[trigger] w.users[i]).lobby_id != target by {
                    if w.users[i].lobby_id != 0 {
                        let je = choose|je: int|
                            0 <= je < w.lobbies.len() && (#[trigger] w.lobbies[je]).id
                                == w.users[i].lobby_id;
                        assert(w.lobbies[je].id < w.next_lobby_id);
                    }
                }
                lemma_count_zero(w.users, target);
                assert(lobbies1[j].player_count == count_assigned(w.users, target));
            },
        }
        // the transition increments exactly that room
        assert(w1.lobbies == lobbies1.update(
            j,
            Lobby { id: lobbies1[j].id, player_count: (lobbies1[j].player_count + 1) as u32 },
        ));
        assert(lobbies1[j].player_count < w.capacity);
        lemma_find_lobby_idx_same_ids(w1.lobbies, lobbies1, target);
        // untouched rooms keep their records
        assert forall|k: int|
            0 <= k < w.lobbies.len() && (#[trigger] w.lobbies[k]).id != target implies
            find_lobby_idx(w1.lobbies, w.lobbies[k].id) matches Some(j2) && w1.lobbies[j2]
            == w.lobbies[k] by {
            assert(lobbies1[k] == w.lobbies[k]);
            lemma_find_lobby_idx_same_ids(w1.lobbies, lobbies1, w.lobbies[k].id);
            lemma_find_lobby_idx_spec(lobbies1, w.lobbies[k].id);
            assert(lobby_exists(lobbies1, w.lobbies[k].id));
            let j2 = find_lobby_idx(lobbies1, w.lobbies[k].id)->Some_0;
            assert(lobbies1[j2].id == lobbies1[k].id);
            if j2 < k {
                assert(lobbies1[j2].id < lobbies1[k].id);
            } else if k < j2 {
                assert(lobbies1[k].id < lobbies1[j2].id);
            }
            assert(j2 == k);
            assert(j2 != j);
            assert(w1.lobbies[j2] == lobbies1[j2]);
        }
    }
}

/// The first-fit rule: when some room still has spare capacity, the
/// assignment targets the first such room in scan order, never a later
/// or an emptier one.
pub proof fn lemma_assign_first_fit(w: WorldView, identity: u64)
    requires
        w.wf(),
        match find_user_idx(w.users, identity) {
            Some(ui) => w.users[ui].lobby_id == 0,
            None => false,
        },
        first_fit_idx(w.lobbies, w.capacity) is Some,
    ensures
        assign_t(w, identity).1 == w.lobbies[first_fit_idx(w.lobbies, w.capacity)->Some_0].id,
{
    lemma_find_user_idx_spec(w.users, identity);
    lemma_first_fit_idx_spec(w.lobbies, w.capacity);
}

/// Lazy creation: when every existing room is full and the id space is
/// not exhausted, assignment creates exactly one new room — under the
/// next fresh id, larger than any existing one — and the caller lands
/// in it as its only occupant.
pub proof fn lemma_assign_lazy_creation(w: WorldView, identity: u64)
    requires
        w.wf(),
        match find_user_idx(w.users, identity) {
            Some(ui) => w.users[ui].lobby_id == 0,
            None => false,
        },
        first_fit_idx(w.lobbies, w.capacity) is None,
        w.next_lobby_id < u64::MAX,
    ensures
        ({
            let w1 = assign_t(w, identity).0;
            let target = assign_t(w, identity).1;
            &&& target == w.next_lobby_id
            &&& w1.lobbies.len() == w.lobbies.len() + 1
            &&& w1.lobbies[w.lobbies.len() as int] == (Lobby { id: target, player_count: 1 })
            &&& forall|k: int| 0 <= k < w.lobbies.len() ==> #[trigger] w1.lobbies[k] == w.lobbies[k]
            &&& user_lobby(w1, identity) == target
            &&& w1.next_lobby_id == w.next_lobby_id + 1
        }),
{
    let picked = pick_or_create(w);
    let lobbies1 = picked.0;
    let target = picked.2;
    let w1 = assign_t(w, identity).0;
    lemma_find_user_idx_spec(w.users, identity);
    lemma_first_fit_idx_spec(w.lobbies, w.capacity);
    lemma_pick_or_create_wf(w);
    let ui = find_user_idx(w.users, identity)->Some_0;
    let u1 = User {
        identity: w.users[ui].identity,
        online: w.users[ui].online,
        lobby_id: target,
        kin: w.users[ui].kin,
    };
    let users1 = w.users.update(ui, u1);
    lemma_find_user_idx_same_identities(users1, w.users, identity);
    lemma_find_lobby_idx_spec(lobbies1, target);
    let j = find_lobby_idx(lobbies1, target)->Some_0;
    let len = w.lobbies.len() as int;
    assert(j == len) by {
        if j < len {
            assert(lobbies1[j] == w.lobbies[j]);
            assert(w.lobbies[j].id < w.next_lobby_id);
        }
    }
}

/// Appending a record for an identity that was absent makes the search
/// find exactly that record, at the end of the scan order.
pub proof fn lemma_find_user_idx_after_push(users: Seq<User>, u: User)
    requires
        find_user_idx(users, u.identity) is None,
    ensures
        find_user_idx(users.push(u), u.identity) == Some(users.len() as int),
{
    lemma_find_user_idx_spec(users, u.identity);
    let users1 = users.push(u);
    let len = users.len() as int;
    lemma_find_user_idx_spec(users1, u.identity);
    assert(users1[len] == u);
    match find_user_idx(users1, u.identity) {
        Some(i) => {
            if i < len {
                assert(users1[i] == users[i]);
            }
            assert(i == len);
        },
        None => {
            assert(users1[len].identity == u.identity);
            assert(false);
        },
    }
}

/// Round trip of a fresh identity: connecting counts it once in some
/// room; disconnecting marks it offline, uncounts it, and gives the
/// occupant back; reconnecting assigns it again — possibly to the same
/// room, possibly to another — and the newly assigned room's occupancy
/// again rises by exactly one.
pub proof fn lemma_reconnect_round_trip(
    w: WorldView,
    identity: u64,
    pos1: Vector3,
    time1: u64,
    pos2: Vector3,
    time2: u64,
)
    requires
        w.wf(),
        find_user_idx(w.users, identity) is None,
    ensures
        ({
            let w1 = connect_t(w, identity, pos1, time1);
            let w2 = disconnect_t(w1, identity);
            let w3 = connect_t(w2, identity, pos2, time2);
            let r1 = user_lobby(w1, identity);
            let r3 = user_lobby(w3, identity);
            &&& w1.wf()
            &&& w2.wf()
            &&& w3.wf()
            &&& user_online(w1, identity)
            &&& r1 != 0 ==> lobby_count(w1, r1) as int == count_assigned(w.users, r1) + 1
            &&& !user_online(w2, identity)
            &&& user_lobby(w2, identity) == 0
            &&& r1 != 0 ==> lobby_count(w2, r1) as int == count_assigned(w.users, r1)
            &&& user_online(w3, identity)
            &&& r3 != 0 ==> lobby_count(w3, r3) as int == lobby_count(w2, r3) as int + 1
        }),
{
    lemma_find_user_idx_spec(w.users, identity);
    let len = w.users.len() as int;
    let nu = User { identity, online: true, lobby_id: 0, kin: initial_kin(pos1, time1) };
    let wp = WorldView { users: w.users.push(nu), ..w };
    lemma_user_push_wf(w, nu);
    lemma_find_user_idx_after_push(w.users, nu);
    assert(find_user_idx(wp.users, identity) == Some(len));
    let w1 = connect_t(w, identity, pos1, time1);
    let r1 = assign_t(wp, identity).1;
    assert(w1 == assign_t(wp, identity).0);
    lemma_assign_wf(wp, identity);
    lemma_assign_consistency(wp, identity);
    assert(user_lobby(w1, identity) == r1);
    // the user record keeps its place and is online after assignment
    assert(w1.users.len() == wp.users.len());
    assert(forall|i: int|
        0 <= i < w1.users.len() ==> (#[trigger] w1.users[i]).identity == wp.users[i].identity);
    lemma_find_user_idx_same_identities(w1.users, wp.users, identity);
    assert(find_user_idx(w1.users, identity) == Some(len));
    assert(w1.users[len].online);
    assert(w1.users[len].lobby_id == r1);
    // the connect counted the user once in its room
    if r1 != 0 {
        lemma_count_push(w.users, nu, r1);
        assert(count_assigned(wp.users, r1) == count_assigned(w.users, r1));
    }
    // disconnect: clear the record first, then give the occupant back
    let u2 = User { identity, online: false, lobby_id: 0, kin: w1.users[len].kin };
    assert(w1.users[len].identity == identity);
    let w1c = WorldView { users: w1.users.update(len, u2), ..w1 };
    let w2 = disconnect_t(w1, identity);
    assert(w2 == if r1 != 0 {
        release_t(w1c, r1)
    } else {
        w1c
    });
    lemma_disconnect_wf(w1, identity);
    assert(w2.users == w1c.users);
    assert(forall|i: int|
        0 <= i < w2.users.len() ==> (#[trigger] w2.users[i]).identity == w1.users[i].identity);
    lemma_find_user_idx_same_identities(w2.users, w1.users, identity);
    assert(find_user_idx(w2.users, identity) == Some(len));
    assert(!w2.users[len].online);
    assert(w2.users[len].lobby_id == 0);
    if r1 != 0 {
        // the departed room is counted down to its pre-connect membership
        lemma_count_update(w1.users, len, u2, r1);
        assert(count_assigned(w2.users, r1) as int == count_assigned(w1.users, r1) as int - 1);
        assert(count_assigned(w1.users, r1) as int == count_assigned(w.users, r1) + 1);
        lemma_find_lobby_idx_spec(w1.lobbies, r1);
        assert(w1c.lobbies == w1.lobbies);
        assert(forall|k: int|
            0 <= k < w2.lobbies.len() ==> (#[trigger] w2.lobbies[k]).id == w1.lobbies[k].id);
        lemma_find_lobby_idx_same_ids(w2.lobbies, w1.lobbies, r1);
        lemma_find_lobby_idx_spec(w2.lobbies, r1);
        let j2 = find_lobby_idx(w2.lobbies, r1)->Some_0;
        assert(w2.lobbies[j2].player_count == count_assigned(w2.users, r1));
        assert(lobby_count(w2, r1) as int == count_assigned(w.users, r1));
    }
    // reconnect: the record exists, uncounted, so one assignment happens
    let u3 = User { identity, online: true, lobby_id: 0, kin: w2.users[len].kin };
    let w2u = WorldView { users: w2.users.update(len, u3), ..w2 };
    let w3 = connect_t(w2, identity, pos2, time2);
    assert(w2.users[len] == (User { identity, online: false, lobby_id: 0, kin: w2.users[len].kin }));
    assert(w3 == assign_t(w2u, identity).0);
    lemma_user_field_update_wf(w2, len, u3);
    assert(forall|i: int|
        0 <= i < w2u.users.len() ==> (#[trigger] w2u.users[i]).identity == w2.users[i].identity);
    lemma_find_user_idx_same_identities(w2u.users, w2.users, identity);
    assert(find_user_idx(w2u.users, identity) == Some(len));
    assert(w2u.users[len].lobby_id == 0);
    lemma_assign_wf(w2u, identity);
    lemma_assign_consistency(w2u, identity);
    let r3 = assign_t(w2u, identity).1;
    assert(user_lobby(w3, identity) == r3);
    assert(forall|i: int|
        0 <= i < w3.users.len() ==> (#[trigger] w3.users[i]).identity == w2u.users[i].identity);
    lemma_find_user_idx_same_identities(w3.users, w2u.users, identity);
    assert(find_user_idx(w3.users, identity) == Some(len));
    assert(w3.users[len].online);
    if r3 != 0 {
        // the update that marks the user online moves no counts
        lemma_count_update(w2.users, len, u3, r3);
        assert(count_assigned(w2u.users, r3) == count_assigned(w2.users, r3));
        // the room's occupancy before the reconnect was its membership
        lemma_find_lobby_idx_spec(w2.lobbies, r3);
        match find_lobby_idx(w2.lobbies, r3) {
            Some(jr) => {
                assert(w2.lobbies[jr].player_count == count_assigned(w2.users, r3));
                assert(lobby_count(w2, r3) as int == count_assigned(w2.users, r3) as int);
            },
            None => {
                assert forall|i: int| 0 <= i < w2.users.len() implies (
                #[trigger] w2.users[i]).lobby_id != r3 by {
                    if w2.users[i].lobby_id != 0 {
                        assert(lobby_exists(w2.lobbies, w2.users[i].lobby_id));
                        let je = choose|je: int|
                            0 <= je < w2.lobbies.len() && (#[trigger] w2.lobbies[je]).id
                                == w2.users[i].lobby_id;
                        assert(w2.lobbies[je].id != r3);
                    }
                }
                lemma_count_zero(w2.users, r3);
                assert(lobby_count(w2, r3) == 0);
            },
        }
        // and after it, one more
        assert(w2u.lobbies == w2.lobbies);
        match find_lobby_idx(w3.lobbies, r3) {
            Some(j3) => {
                assert(w3.lobbies[j3].player_count as int == count_assigned(w2u.users, r3) + 1);
                assert(lobby_count(w3, r3) as int == lobby_count(w2, r3) as int + 1);
            },
            None => {
                assert(false);
            },
        }
    }
}

} // verus!
