use vstd::prelude::*;
use crate::kinematics::kin_wf;
use crate::world::{
    World, WorldView, User, Lobby, find_user_idx, find_lobby_idx, first_fit_idx, count_assigned,
    lobbies_wf, users_wf, counts_wf, lobby_exists, lemma_find_user_idx_spec,
    lemma_find_lobby_idx_spec, lemma_first_fit_idx_spec, lemma_count_update, lemma_count_zero,
};

verus! {

/// The capacity ceiling of the deployment: how many players one room
/// may hold.
pub const MAX_PLAYERS_PER_LOBBY: u32 = 16;

/// The departure transition: the room, if it exists and its occupancy
/// is positive, loses one occupant; an absent room or one already at
/// zero is left as it stands, treated as an operational anomaly rather
/// than a failure — occupancy never goes negative.
pub open spec fn release_t(w: WorldView, lobby_id: u64) -> WorldView {
    match find_lobby_idx(w.lobbies, lobby_id) {
        Some(j) => if w.lobbies[j].player_count > 0 {
            WorldView {
                lobbies: w.lobbies.update(
                    j,
                    Lobby {
                        id: w.lobbies[j].id,
                        player_count: (w.lobbies[j].player_count - 1) as u32,
                    },
                ),
                ..w
            }
        } else {
            w
        },
        None => w,
    }
}

/// What the allocator picks before it touches the user record: the
/// first room with spare capacity in scan order, else a freshly created
/// empty room under the next fresh id, else no room at all when the id
/// space is exhausted (a zero target: the abandoned assignment).
pub open spec fn pick_or_create(w: WorldView) -> (Seq<Lobby>, u64, u64) {
    match first_fit_idx(w.lobbies, w.capacity) {
        Some(j) => (w.lobbies, w.next_lobby_id, w.lobbies[j].id),
        None => if w.next_lobby_id == u64::MAX {
            (w.lobbies, w.next_lobby_id, 0)
        } else {
            (
                w.lobbies.push(Lobby { id: w.next_lobby_id, player_count: 0 }),
                (w.next_lobby_id + 1) as u64,
                w.next_lobby_id,
            )
        },
    }
}

/// The assignment transition: pick or create a room, then, if the user
/// record exists, write the target into it and raise the target room's
/// occupancy by one. A missing user record leaves the picked or created
/// room as it stands, and a zero target (exhausted id space) skips the
/// increment: room bookkeeping is best effort, never a failure.
pub open spec fn assign_t(w: WorldView, identity: u64) -> (WorldView, u64) {
    let picked = pick_or_create(w);
    let lobbies1 = picked.0;
    let next1 = picked.1;
    let target = picked.2;
    match find_user_idx(w.users, identity) {
        None => (WorldView { lobbies: lobbies1, next_lobby_id: next1, ..w }, 0),
        Some(ui) => {
            let users1 = w.users.update(
                ui,
                User {
                    identity: w.users[ui].identity,
                    online: w.users[ui].online,
                    lobby_id: target,
                    kin: w.users[ui].kin,
                },
            );
            if target == 0 {
                (WorldView { lobbies: lobbies1, next_lobby_id: next1, users: users1, ..w }, 0)
            } else {
                match find_lobby_idx(lobbies1, target) {
                    Some(j) => (
                        WorldView {
                            lobbies: lobbies1.update(
                                j,
                                Lobby {
                                    id: lobbies1[j].id,
                                    player_count: (lobbies1[j].player_count + 1) as u32,
                                },
                            ),
                            next_lobby_id: next1,
                            users: users1,
                            ..w
                        },
                        target,
                    ),
                    None => (
                        WorldView { lobbies: lobbies1, next_lobby_id: next1, users: users1, ..w },
                        target,
                    ),
                }
            }
        },
    }
}

impl World {
    /// Releases one occupant from the given room. An absent room and a
    /// room already at zero are left untouched, so occupancy never goes
    /// negative, and a zero count stays zero.
    pub fn user_disconnected(&mut self, lobby_id: u64)
        ensures
            final(self)@ == release_t(old(self)@, lobby_id),
    {
        proof {
            lemma_find_lobby_idx_spec(self@.lobbies, lobby_id);
        }
        match self.find_lobby_pos(lobby_id) {
            Some(i) => {
                let l: Lobby = self.lobbies[i];
                if l.player_count > 0 {
                    self.lobbies[i] = Lobby { id: l.id, player_count: l.player_count - 1 };
                }
            },
            None => {},
        }
    }

    /// Assigns the identified user to a room: the first room with spare
    /// capacity in scan order, else a freshly created one. Returns the
    /// room id written into the user record, zero when no room could be
    /// given (an unknown user, or the exhausted id space).
    pub fn assign_user_to_lobby(&mut self, identity: u64) -> (target: u64)
        requires
            old(self)@.wf(),
            match find_user_idx(old(self)@.users, identity) {
                Some(ui) => old(self)@.users[ui].lobby_id == 0,
                None => true,
            },
        ensures
            final(self)@ == assign_t(old(self)@, identity).0,
            target == assign_t(old(self)@, identity).1,
            final(self)@.wf(),
    {
        proof {
            lemma_find_user_idx_spec(self@.users, identity);
            lemma_first_fit_idx_spec(self@.lobbies, self.capacity);
            lemma_pick_or_create_wf(self@);
        }
        let ghost w0 = self@;
        let ghost picked = pick_or_create(w0);
        let target: u64 = match self.first_fit_pos() {
            Some(j) => self.lobbies[j].id,
            None => {
                if self.next_lobby_id == u64::MAX {
                    0
                } else {
                    let fresh: u64 = self.next_lobby_id;
                    self.lobbies.push(Lobby { id: fresh, player_count: 0 });
                    self.next_lobby_id = fresh + 1;
                    fresh
                }
            },
        };
        proof {
            assert(self@.lobbies == picked.0);
            assert(self@.next_lobby_id == picked.1);
            assert(target == picked.2);
            assert(self@.users == w0.users);
        }
        let r: u64 = match self.find_user_pos(identity) {
            None => 0,
            Some(ui) => {
                let u: User = self.users[ui];
                self.users[ui] = User {
                    identity: u.identity,
                    online: u.online,
                    lobby_id: target,
                    kin: u.kin,
                };
                if target != 0 {
                    proof {
                        lemma_find_lobby_idx_spec(self@.lobbies, target);
                    }
                    match self.find_lobby_pos(target) {
                        Some(j) => {
                            let l: Lobby = self.lobbies[j];
                            self.lobbies[j] = Lobby { id: l.id, player_count: l.player_count + 1 };
                        },
                        None => {},
                    }
                }
                target
            },
        };
        proof {
            lemma_assign_wf(w0, identity);
        }
        r
    }
}

/// Picking or creating a room keeps the room table well formed and the
/// occupancy consistency intact: a fresh room starts empty and no user
/// record references its id yet; a picked room has spare capacity.
pub proof fn lemma_pick_or_create_wf(w: WorldView)
    requires
        w.wf(),
    ensures
        lobbies_wf(pick_or_create(w).0, pick_or_create(w).1, w.capacity),
        counts_wf(pick_or_create(w).0, w.users),
        users_wf(w.users, pick_or_create(w).0),
        pick_or_create(w).1 >= 1,
        pick_or_create(w).2 != 0 ==> match find_lobby_idx(pick_or_create(w).0, pick_or_create(w).2) {
            Some(j) => pick_or_create(w).0[j].player_count < w.capacity,
            None => false,
        },
{
    let picked = pick_or_create(w);
    let lobbies1 = picked.0;
    let next1 = picked.1;
    let target = picked.2;
    lemma_first_fit_idx_spec(w.lobbies, w.capacity);
    match first_fit_idx(w.lobbies, w.capacity) {
        Some(jf) => {
            assert(lobby_exists(lobbies1, target));
            lemma_find_lobby_idx_spec(lobbies1, target);
            let j = find_lobby_idx(lobbies1, target)->Some_0;
            assert(j == jf) by {
                if j < jf {
                    assert(lobbies1[j].id < lobbies1[jf].id);
                } else if jf < j {
                    assert(lobbies1[jf].id < lobbies1[j].id);
                }
            }
        },
        None => {
            if w.next_lobby_id != u64::MAX {
                let fresh = w.next_lobby_id;
                let len = w.lobbies.len() as int;
                assert(lobbies1[len] == (Lobby { id: fresh, player_count: 0 }));
                assert(forall|k: int| 0 <= k < len ==> #[trigger] lobbies1[k] == w.lobbies[k]);
                // ids stay in range and in order with the fresh one last
                assert forall|k: int| 0 <= k < lobbies1.len() implies 1 <= (
                #[trigger] lobbies1[k]).id < next1 by {
                    if k < len {
                        assert(1 <= w.lobbies[k].id < fresh);
                    }
                }
                assert forall|k1: int, k2: int| 0 <= k1 < k2 < lobbies1.len() implies (
                #[trigger] lobbies1[k1]).id < (#[trigger] lobbies1[k2]).id by {
                    assert(1 <= w.lobbies[k1].id < fresh);
                    if k2 < len {
                        assert(w.lobbies[k1].id < w.lobbies[k2].id);
                    }
                }
                assert forall|k: int| 0 <= k < lobbies1.len() implies (
                #[trigger] lobbies1[k]).player_count <= w.capacity by {
                    if k < len {
                        assert(w.lobbies[k].player_count <= w.capacity);
                    }
                }
                // nothing references the fresh id: every nonzero reference
                // points at an existing room, whose id lies below it
                assert forall|i: int| 0 <= i < w.users.len() implies (
                #[trigger] w.users[i]).lobby_id != fresh by {
                    if w.users[i].lobby_id != 0 {
                        let je = choose|je: int|
                            0 <= je < w.lobbies.len() && (#[trigger] w.lobbies[je]).id
                                == w.users[i].lobby_id;
                        assert(w.lobbies[je].id < fresh);
                    }
                }
                lemma_count_zero(w.users, fresh);
                assert forall|k: int| 0 <= k < lobbies1.len() implies (
                #[trigger] lobbies1[k]).player_count == count_assigned(w.users, lobbies1[k].id) by {
                    if k < len {
                        assert(w.lobbies[k].player_count == count_assigned(w.users, w.lobbies[k].id));
                    }
                }
                assert forall|i: int|
                    0 <= i < w.users.len() && (#[trigger] w.users[i]).lobby_id != 0 implies
                    lobby_exists(lobbies1, w.users[i].lobby_id) by {
                    let je = choose|je: int|
                        0 <= je < w.lobbies.len() && (#[trigger] w.lobbies[je]).id
                            == w.users[i].lobby_id;
                    assert(lobbies1[je].id == w.users[i].lobby_id);
                }
                assert(lobby_exists(lobbies1, target));
                lemma_find_lobby_idx_spec(lobbies1, target);
                let j = find_lobby_idx(lobbies1, target)->Some_0;
                assert(j == len) by {
                    if j < len {
                        assert(lobbies1[j].id == w.lobbies[j].id);
                        assert(w.lobbies[j].id < fresh);
                    }
                }
            }
        },
    }
}

/// Assignment preserves well-formedness, provided the identified user,
/// if present, is not yet counted in any room — the state from which
/// the presence controller invokes it. In particular the capacity bound
/// and the occupancy consistency hold again afterwards.
pub proof fn lemma_assign_wf(w: WorldView, identity: u64)
    requires
        w.wf(),
        match find_user_idx(w.users, identity) {
            Some(ui) => w.users[ui].lobby_id == 0,
            None => true,
        },
    ensures
        assign_t(w, identity).0.wf(),
{
    let picked = pick_or_create(w);
    let lobbies1 = picked.0;
    let next1 = picked.1;
    let target = picked.2;
    lemma_find_user_idx_spec(w.users, identity);
    lemma_pick_or_create_wf(w);
    match find_user_idx(w.users, identity) {
        None => {},
        Some(ui) => {
            let u1 = User {
                identity: w.users[ui].identity,
                online: w.users[ui].online,
                lobby_id: target,
                kin: w.users[ui].kin,
            };
            let users1 = w.users.update(ui, u1);
            if target == 0 {
                assert(users1 =~= w.users);
            } else {
                lemma_find_lobby_idx_spec(lobbies1, target);
                let j = find_lobby_idx(lobbies1, target)->Some_0;
                let w1 = assign_t(w, identity).0;
                assert(w1.users == users1);
                assert(w1.next_lobby_id == next1);
                assert(w1.capacity == w.capacity);
                assert(w1.lobbies.len() == lobbies1.len());
                assert(forall|k: int|
                    0 <= k < w1.lobbies.len() ==> (#[trigger] w1.lobbies[k]).id == lobbies1[k].id);
                assert(forall|k: int|
                    0 <= k < w1.lobbies.len() && k != j ==> #[trigger] w1.lobbies[k] == lobbies1[k]);
                // the room table stays well formed
                assert forall|k: int| 0 <= k < w1.lobbies.len() implies 1 <= (
                #[trigger] w1.lobbies[k]).id < next1 by {
                    assert(1 <= lobbies1[k].id < next1);
                }
                assert forall|k1: int, k2: int| 0 <= k1 < k2 < w1.lobbies.len() implies (
                #[trigger] w1.lobbies[k1]).id < (#[trigger] w1.lobbies[k2]).id by {
                    assert(lobbies1[k1].id < lobbies1[k2].id);
                }
                assert forall|k: int| 0 <= k < w1.lobbies.len() implies (
                #[trigger] w1.lobbies[k]).player_count <= w.capacity by {
                    if k == j {
                        assert(lobbies1[j].player_count < w.capacity);
                    } else {
                        assert(lobbies1[k].player_count <= w.capacity);
                    }
                }
                // the user table stays well formed
                assert forall|i1: int, i2: int| 0 <= i1 < i2 < users1.len() implies (
                #[trigger] users1[i1]).identity != (#[trigger] users1[i2]).identity by {
                    assert(w.users[i1].identity != w.users[i2].identity);
                }
                assert forall|i: int| 0 <= i < users1.len() implies kin_wf(
                    (#[trigger] users1[i]).kin,
                ) by {
                    assert(kin_wf(w.users[i].kin));
                }
                assert forall|i: int|
                    0 <= i < users1.len() && (#[trigger] users1[i]).lobby_id != 0 implies
                    lobby_exists(w1.lobbies, users1[i].lobby_id) by {
                    if i == ui {
                        assert(w1.lobbies[j].id == target);
                    } else {
                        assert(users1[i] == w.users[i]);
                        assert(lobby_exists(lobbies1, w.users[i].lobby_id));
                        let je = choose|je: int|
                            0 <= je < lobbies1.len() && (#[trigger] lobbies1[je]).id == users1[i].lobby_id;
                        assert(w1.lobbies[je].id == users1[i].lobby_id);
                    }
                }
                // each occupancy still counts its members
                assert forall|k: int| 0 <= k < w1.lobbies.len() implies (
                #[trigger] w1.lobbies[k]).player_count == count_assigned(users1, w1.lobbies[k].id) by {
                    lemma_count_update(w.users, ui, u1, lobbies1[k].id);
                    assert(lobbies1[k].player_count == count_assigned(w.users, lobbies1[k].id));
                    assert(1 <= lobbies1[k].id);
                    if k == j {
                        assert(lobbies1[k].id == target);
                    } else {
                        if k < j {
                            assert(lobbies1[k].id < lobbies1[j].id);
                        } else {
                            assert(lobbies1[j].id < lobbies1[k].id);
                        }
                        assert(lobbies1[k].id != target);
                        assert(w1.lobbies[k] == lobbies1[k]);
                    }
                    assert(w1.lobbies[k].id == lobbies1[k].id);
                }
                assert(w1.wf());
            }
        },
    }
}

} // verus!
