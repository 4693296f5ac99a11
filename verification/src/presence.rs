use vstd::prelude::*;
use crate::kinematics::{KinematicState, kin_wf, spec_step, step, PLAYER_SPEED};
use crate::lobby::{assign_t, release_t};
use crate::vectors::{Vector2, Vector3};
use crate::world::{
    World, WorldView, User, Lobby, find_user_idx, find_lobby_idx, count_assigned, lobbies_wf,
    users_wf, lobby_exists, lemma_find_user_idx_spec, lemma_find_lobby_idx_spec,
    lemma_find_user_idx_same_identities, lemma_count_update, lemma_count_push,
};

verus! {

/// The one caller-visible failure of this core: a movement request for
/// an identity that has no kinematic record.
#[derive(Clone, Copy, PartialEq, Eq, Structural, Debug)]
pub enum MoveError {
    UserNotFound,
}

/// The kinematic record a user starts with: standing still at the given
/// position, at the deployment's speed, stamped with the connect time.
pub open spec fn initial_kin(initial_position: Vector3, now: u64) -> KinematicState {
    KinematicState {
        position: initial_position,
        direction: Vector2 { x: 0, y: 0 },
        speed: PLAYER_SPEED,
        last_update: now,
    }
}

/// The connect transition: a known user is marked online and, when not
/// yet counted in any room, assigned to one; an unknown identity gets a
/// fresh online presence record with a fresh kinematic record, and is
/// then assigned to a room. Exactly one assignment attempt happens per
/// connect of a not-yet-assigned user.
pub open spec fn connect_t(w: WorldView, identity: u64, initial_position: Vector3, now: u64) -> WorldView {
    match find_user_idx(w.users, identity) {
        Some(ui) => {
            let w1 = WorldView {
                users: w.users.update(
                    ui,
                    User {
                        identity: w.users[ui].identity,
                        online: true,
                        lobby_id: w.users[ui].lobby_id,
                        kin: w.users[ui].kin,
                    },
                ),
                ..w
            };
            if w.users[ui].lobby_id == 0 {
                assign_t(w1, identity).0
            } else {
                w1
            }
        },
        None => {
            let w1 = WorldView {
                users: w.users.push(
                    User {
                        identity,
                        online: true,
                        lobby_id: 0,
                        kin: initial_kin(initial_position, now),
                    },
                ),
                ..w
            };
            assign_t(w1, identity).0
        },
    }
}

/// The disconnect transition: an unknown identity is ignored; a known
/// user is marked offline and uncounted first, and then, if it was
/// counted somewhere, that room releases one occupant. The departure is
/// reflected in the presence record even if the room had gone missing.
pub open spec fn disconnect_t(w: WorldView, identity: u64) -> WorldView {
    match find_user_idx(w.users, identity) {
        None => w,
        Some(ui) => {
            let lid = w.users[ui].lobby_id;
            let w1 = WorldView {
                users: w.users.update(
                    ui,
                    User {
                        identity: w.users[ui].identity,
                        online: false,
                        lobby_id: 0,
                        kin: w.users[ui].kin,
                    },
                ),
                ..w
            };
            if lid != 0 {
                release_t(w1, lid)
            } else {
                w1
            }
        },
    }
}

/// The movement transition: an unknown identity changes nothing; a
/// known user's kinematic record takes one extrapolation step.
pub open spec fn move_t(w: WorldView, identity: u64, input: Vector2, now: u64) -> (WorldView, bool) {
    match find_user_idx(w.users, identity) {
        None => (w, false),
        Some(ui) => (
            WorldView {
                users: w.users.update(
                    ui,
                    User {
                        identity: w.users[ui].identity,
                        online: w.users[ui].online,
                        lobby_id: w.users[ui].lobby_id,
                        kin: spec_step(w.users[ui].kin, input, now),
                    },
                ),
                ..w
            },
            true,
        ),
    }
}

/// Replacing one user record without touching its identity or its room
/// reference keeps the state well formed, as long as the stored
/// direction stays bounded.
pub proof fn lemma_user_field_update_wf(w: WorldView, ui: int, u1: User)
    requires
        w.wf(),
        0 <= ui < w.users.len(),
        u1.identity == w.users[ui].identity,
        u1.lobby_id == w.users[ui].lobby_id,
        kin_wf(u1.kin),
    ensures
        (WorldView { users: w.users.update(ui, u1), ..w }).wf(),
{
    let users1 = w.users.update(ui, u1);
    assert forall|i1: int, i2: int| 0 <= i1 < i2 < users1.len() implies (
    #[trigger] users1[i1]).identity != (#[trigger] users1[i2]).identity by {
        assert(w.users[i1].identity != w.users[i2].identity);
    }
    assert forall|i: int| 0 <= i < users1.len() implies kin_wf((#[trigger] users1[i]).kin) by {
        assert(kin_wf(w.users[i].kin));
    }
    assert forall|i: int|
        0 <= i < users1.len() && (#[trigger] users1[i]).lobby_id != 0 implies lobby_exists(
        w.lobbies,
        users1[i].lobby_id,
    ) by {
        assert(users1[i].lobby_id == w.users[i].lobby_id);
        assert(lobby_exists(w.lobbies, w.users[i].lobby_id));
    }
    assert forall|k: int| 0 <= k < w.lobbies.len() implies (
    #[trigger] w.lobbies[k]).player_count == count_assigned(users1, w.lobbies[k].id) by {
        lemma_count_update(w.users, ui, u1, w.lobbies[k].id);
    }
}

/// Adding a presence record for a fresh identity, not counted anywhere,
/// keeps the state well formed.
pub proof fn lemma_user_push_wf(w: WorldView, u: User)
    requires
        w.wf(),
        u.lobby_id == 0,
        kin_wf(u.kin),
        forall|i: int| 0 <= i < w.users.len() ==> (#[trigger] w.users[i]).identity != u.identity,
    ensures
        (WorldView { users: w.users.push(u), ..w }).wf(),
{
    let users1 = w.users.push(u);
    let len = w.users.len() as int;
    assert(forall|i: int| 0 <= i < len ==> #[trigger] users1[i] == w.users[i]);
    assert(users1[len] == u);
    assert forall|i1: int, i2: int| 0 <= i1 < i2 < users1.len() implies (
    #[trigger] users1[i1]).identity != (#[trigger] users1[i2]).identity by {
        if i2 < len {
            assert(w.users[i1].identity != w.users[i2].identity);
        } else {
            assert(w.users[i1].identity != u.identity);
        }
    }
    assert forall|i: int| 0 <= i < users1.len() implies kin_wf((#[trigger] users1[i]).kin) by {
        if i < len {
            assert(kin_wf(w.users[i].kin));
        }
    }
    assert forall|i: int|
        0 <= i < users1.len() && (#[trigger] users1[i]).lobby_id != 0 implies lobby_exists(
        w.lobbies,
        users1[i].lobby_id,
    ) by {
        assert(i < len);
        assert(lobby_exists(w.lobbies, w.users[i].lobby_id));
    }
    assert forall|k: int| 0 <= k < w.lobbies.len() implies (
    #[trigger] w.lobbies[k]).player_count == count_assigned(users1, w.lobbies[k].id) by {
        lemma_count_push(w.users, u, w.lobbies[k].id);
        assert(1 <= w.lobbies[k].id);
    }
}

/// Releasing one occupant restores well-formedness from the state that
/// a disconnect leaves behind: every room already counts its members
/// except the departed room, whose counter still carries the departing
/// user.
pub proof fn lemma_release_wf(w: WorldView, lobby_id: u64)
    requires
        w.capacity >= 1,
        w.next_lobby_id >= 1,
        lobbies_wf(w.lobbies, w.next_lobby_id, w.capacity),
        users_wf(w.users, w.lobbies),
        forall|k: int|
            0 <= k < w.lobbies.len() && (#[trigger] w.lobbies[k]).id != lobby_id
                ==> w.lobbies[k].player_count == count_assigned(w.users, w.lobbies[k].id),
        match find_lobby_idx(w.lobbies, lobby_id) {
            Some(j) => w.lobbies[j].player_count == count_assigned(w.users, lobby_id) + 1,
            None => true,
        },
    ensures
        release_t(w, lobby_id).wf(),
{
    lemma_find_lobby_idx_spec(w.lobbies, lobby_id);
    match find_lobby_idx(w.lobbies, lobby_id) {
        None => {
            assert forall|k: int| 0 <= k < w.lobbies.len() implies (
            #[trigger] w.lobbies[k]).player_count == count_assigned(w.users, w.lobbies[k].id) by {
                assert(w.lobbies[k].id != lobby_id);
            }
        },
        Some(j) => {
            let w1 = release_t(w, lobby_id);
            assert(w.lobbies[j].player_count > 0);
            assert(w1.lobbies == w.lobbies.update(
                j,
                Lobby {
                    id: w.lobbies[j].id,
                    player_count: (w.lobbies[j].player_count - 1) as u32,
                },
            ));
            assert(forall|k: int|
                0 <= k < w1.lobbies.len() ==> (#[trigger] w1.lobbies[k]).id == w.lobbies[k].id);
            assert forall|k: int| 0 <= k < w1.lobbies.len() implies 1 <= (
            #[trigger] w1.lobbies[k]).id < w.next_lobby_id by {
                assert(1 <= w.lobbies[k].id < w.next_lobby_id);
            }
            assert forall|k1: int, k2: int| 0 <= k1 < k2 < w1.lobbies.len() implies (
            #[trigger] w1.lobbies[k1]).id < (#[trigger] w1.lobbies[k2]).id by {
                assert(w.lobbies[k1].id < w.lobbies[k2].id);
            }
            assert forall|k: int| 0 <= k < w1.lobbies.len() implies (
            #[trigger] w1.lobbies[k]).player_count <= w.capacity by {
                assert(w.lobbies[k].player_count <= w.capacity);
            }
            assert forall|k: int| 0 <= k < w1.lobbies.len() implies (
            #[trigger] w1.lobbies[k]).player_count == count_assigned(w.users, w1.lobbies[k].id) by {
                if k != j {
                    if k < j {
                        assert(w.lobbies[k].id < w.lobbies[j].id);
                    } else {
                        assert(w.lobbies[j].id < w.lobbies[k].id);
                    }
                    assert(w.lobbies[k].id != lobby_id);
                    assert(w1.lobbies[k] == w.lobbies[k]);
                }
            }
            assert forall|i: int|
                0 <= i < w1.users.len() && (#[trigger] w1.users[i]).lobby_id != 0 implies
                lobby_exists(w1.lobbies, w1.users[i].lobby_id) by {
                assert(lobby_exists(w.lobbies, w.users[i].lobby_id));
                let je = choose|je: int|
                    0 <= je < w.lobbies.len() && (#[trigger] w.lobbies[je]).id == w.users[i].lobby_id;
                assert(w1.lobbies[je].id == w.users[i].lobby_id);
            }
        },
    }
}

/// Disconnecting preserves well-formedness: the user record is marked
/// offline and uncounted first, and the room it referenced, if any,
/// then gives exactly that one occupant back.
pub proof fn lemma_disconnect_wf(w: WorldView, identity: u64)
    requires
        w.wf(),
    ensures
        disconnect_t(w, identity).wf(),
{
    lemma_find_user_idx_spec(w.users, identity);
    match find_user_idx(w.users, identity) {
        None => {},
        Some(ui) => {
            let lid = w.users[ui].lobby_id;
            let u1 = User {
                identity: w.users[ui].identity,
                online: false,
                lobby_id: 0,
                kin: w.users[ui].kin,
            };
            let w1 = WorldView { users: w.users.update(ui, u1), ..w };
            assert(kin_wf(w.users[ui].kin));
            if lid == 0 {
                lemma_user_field_update_wf(w, ui, u1);
            } else {
                assert forall|i1: int, i2: int| 0 <= i1 < i2 < w1.users.len() implies (
                #[trigger] w1.users[i1]).identity != (#[trigger] w1.users[i2]).identity by {
                    assert(w.users[i1].identity != w.users[i2].identity);
                }
                assert forall|i: int| 0 <= i < w1.users.len() implies kin_wf(
                    (#[trigger] w1.users[i]).kin,
                ) by {
                    assert(kin_wf(w.users[i].kin));
                }
                assert forall|i: int|
                    0 <= i < w1.users.len() && (#[trigger] w1.users[i]).lobby_id != 0 implies
                    lobby_exists(w1.lobbies, w1.users[i].lobby_id) by {
                    assert(w1.users[i].lobby_id == w.users[i].lobby_id);
                    assert(lobby_exists(w.lobbies, w.users[i].lobby_id));
                }
                assert(users_wf(w1.users, w1.lobbies));
                assert forall|k: int|
                    0 <= k < w1.lobbies.len() && (#[trigger] w1.lobbies[k]).id != lid implies
                    w1.lobbies[k].player_count == count_assigned(w1.users, w1.lobbies[k].id) by {
                    lemma_count_update(w.users, ui, u1, w1.lobbies[k].id);
                }
                lemma_find_lobby_idx_spec(w1.lobbies, lid);
                match find_lobby_idx(w1.lobbies, lid) {
                    Some(j) => {
                        lemma_count_update(w.users, ui, u1, lid);
                        assert(w1.lobbies[j].player_count == count_assigned(w.users, lid));
                        assert(count_assigned(w.users, lid) == count_assigned(w1.users, lid) + 1);
                    },
                    None => {},
                }
                lemma_release_wf(w1, lid);
            }
        },
    }
}

impl World {
    /// Reacts to a connect signal: a known user is marked online and,
    /// when not yet counted in any room, assigned to one; an unknown
    /// identity gets a fresh presence and kinematic record (standing
    /// still at the given position) and is assigned to a room.
    pub fn client_connected(&mut self, identity: u64, initial_position: Vector3, now: u64)
        requires
            old(self)@.wf(),
        ensures
            final(self)@ == connect_t(old(self)@, identity, initial_position, now),
            final(self)@.wf(),
    {
        proof {
            lemma_find_user_idx_spec(self@.users, identity);
        }
        let ghost w0 = self@;
        match self.find_user_pos(identity) {
            Some(ui) => {
                let u: User = self.users[ui];
                let u1: User = User {
                    identity: u.identity,
                    online: true,
                    lobby_id: u.lobby_id,
                    kin: u.kin,
                };
                self.users[ui] = u1;
                proof {
                    assert(kin_wf(w0.users[ui as int].kin));
                    lemma_user_field_update_wf(w0, ui as int, u1);
                    lemma_find_user_idx_same_identities(self@.users, w0.users, identity);
                }
                if u.lobby_id == 0 {
                    self.assign_user_to_lobby(identity);
                }
            },
            None => {
                let nu: User = User {
                    identity,
                    online: true,
                    lobby_id: 0,
                    kin: KinematicState {
                        position: initial_position,
                        direction: Vector2 { x: 0, y: 0 },
                        speed: PLAYER_SPEED,
                        last_update: now,
                    },
                };
                self.users.push(nu);
                proof {
                    lemma_user_push_wf(w0, nu);
                    lemma_find_user_idx_spec(self@.users, identity);
                    let len = w0.users.len() as int;
                    assert(self@.users[len] == nu);
                    match find_user_idx(self@.users, identity) {
                        Some(i) => {
                            if i < len {
                                assert(self@.users[i] == w0.users[i]);
                            }
                            assert(i == len);
                        },
                        None => {
                            assert(self@.users[len].identity == identity);
                        },
                    }
                }
                self.assign_user_to_lobby(identity);
            },
        }
    }

    /// Reacts to a disconnect signal: an unknown identity is ignored; a
    /// known user is marked offline and uncounted first, and then the
    /// room it was counted in, if any, releases one occupant.
    pub fn client_disconnected(&mut self, identity: u64)
        requires
            old(self)@.wf(),
        ensures
            final(self)@ == disconnect_t(old(self)@, identity),
            final(self)@.wf(),
    {
        proof {
            lemma_find_user_idx_spec(self@.users, identity);
        }
        let ghost w0 = self@;
        match self.find_user_pos(identity) {
            None => {},
            Some(ui) => {
                let u: User = self.users[ui];
                let u1: User = User {
                    identity: u.identity,
                    online: false,
                    lobby_id: 0,
                    kin: u.kin,
                };
                self.users[ui] = u1;
                if u.lobby_id != 0 {
                    self.user_disconnected(u.lobby_id);
                }
                proof {
                    lemma_disconnect_wf(w0, identity);
                }
            },
        }
    }

    /// Handles one movement request: unknown identities get the
    /// not-found failure and nothing is written; for a known user the
    /// kinematic record takes one extrapolation step under the
    /// submitted input direction and the server time `now`.
    pub fn move_user(&mut self, identity: u64, input: Vector2, now: u64) -> (r: Result<
        (),
        MoveError,
    >)
        requires
            old(self)@.wf(),
        ensures
            final(self)@ == move_t(old(self)@, identity, input, now).0,
            r is Ok <==> move_t(old(self)@, identity, input, now).1,
            r is Err <==> find_user_idx(old(self)@.users, identity) is None,
            r is Err ==> final(self)@ == old(self)@ && r == Err::<(), MoveError>(
                MoveError::UserNotFound,
            ),
            final(self)@.wf(),
    {
        proof {
            lemma_find_user_idx_spec(self@.users, identity);
        }
        let ghost w0 = self@;
        match self.find_user_pos(identity) {
            None => Err(MoveError::UserNotFound),
            Some(ui) => {
                let u: User = self.users[ui];
                proof {
                    assert(kin_wf(w0.users[ui as int].kin));
                }
                let kin1: KinematicState = step(&u.kin, input, now);
                let u1: User = User {
                    identity: u.identity,
                    online: u.online,
                    lobby_id: u.lobby_id,
                    kin: kin1,
                };
                self.users[ui] = u1;
                proof {
                    lemma_user_field_update_wf(w0, ui as int, u1);
                }
                Ok(())
            },
        }
    }
}

} // verus!
