//! Accounts and invite tokens: registration gated by single-use invite
//! tokens, credential checks, and account maintenance. All mutation runs
//! inside the caller's writer transaction, whose exclusivity is what
//! makes the token-claim check race-free.

use vstd::prelude::*;
use vstd::utf8::encode_utf8;
use crate::store::{
    Store, StoreView, UserRow, UserRowView, Invite, InviteView, users_view, invites_view,
    clone_roles, lemma_filter_take_step, roles_view, lemma_filter_all, lemma_users_wf_filter,
    lemma_users_wf_same_names, lemma_users_wf_push, lemma_invites_wf_filter,
    lemma_invites_wf_push,
};
use crate::settings::{UserSettings, UserSettingsView};
use crate::credentials::{hash, hash_spec, MAX_SECRET_BYTES};
use crate::CoreError;

verus! {

/// The built-in capability levels. Accounts carry roles as an opaque
/// set of capability strings; these two are the ones the system itself
/// assigns.
#[derive(Debug, PartialEq, Eq, Structural)]
pub enum Role {
    Owner,
    User,
}

/// An account as the rest of the system sees it (the claimed invite
/// stays in the store).
#[derive(Debug)]
pub struct User {
    pub username: String,
    pub roles: Vec<String>,
    pub password: String,
    pub prefs: UserSettings,
    pub picture: Option<i64>,
}

/// Mathematical value of an account.
#[verifier::ext_equal]
pub ghost struct UserView {
    pub username: Seq<char>,
    pub roles: Seq<Seq<char>>,
    pub password: Seq<char>,
    pub prefs: UserSettingsView,
    pub picture: Option<i64>,
}

impl View for User {
    type V = UserView;

    open spec fn view(&self) -> UserView {
        UserView {
            username: self.username@,
            roles: roles_view(self.roles@),
            password: self.password@,
            prefs: self.prefs@,
            picture: self.picture,
        }
    }
}

/// The account a store row presents.
pub open spec fn public_user(u: UserRowView) -> UserView {
    UserView {
        username: u.username,
        roles: u.roles,
        password: u.password,
        prefs: u.prefs,
        picture: u.picture,
    }
}

fn user_of_row(row: &UserRow) -> (r: User)
    ensures
        r@ == public_user(row@),
{
    let r = User {
        username: row.username.clone(),
        roles: clone_roles(&row.roles),
        password: row.password.clone(),
        prefs: row.prefs.duplicate(),
        picture: row.picture,
    };
    proof {
        assert(r@ =~= public_user(row@));
    }
    r
}

impl User {
    /// Lists every account.
    #[verifier::loop_isolation(false)]
    pub fn get_all(store: &Store) -> (r: Vec<User>)
        ensures
            r@.len() == store@.users.len(),
            forall|i: int| 0 <= i < r@.len() ==> r@[i]@ == public_user(store@.users[i]),
    {
        let mut out: Vec<User> = Vec::new();
        let mut i: usize = 0;
        while i < store.users.len()
            invariant
                i <= store.users.len(),
                out.len() == i,
                forall|j: int| 0 <= j < i ==> out@[j]@ == public_user(store@.users[j]),
            decreases store.users.len() - i,
        {
            out.push(user_of_row(&store.users[i]));
            i += 1;
        }
        out
    }

    /// Looks an account up by username.
    #[verifier::loop_isolation(false)]
    pub fn get(store: &Store, username: &str) -> (r: Result<User, CoreError>)
        requires
            store@.wf(),
        ensures
            r is Ok <==> store@.has_user(username@),
            r is Err ==> r == Err::<User, CoreError>(CoreError::NotFound),
            r is Ok ==> forall|i: int|
                0 <= i < store@.users.len() && #[trigger] store@.users[i].username == username@
                    ==> r.unwrap()@ == public_user(store@.users[i]),
    {
        let uname = username.to_owned();
        let mut i: usize = 0;
        while i < store.users.len()
            invariant
                i <= store.users.len(),
                forall|k: int| 0 <= k < i ==> #[trigger] store@.users[k].username != username@,
            decreases store.users.len() - i,
        {
            let row = &store.users[i];
            if row.username == uname {
                proof {
                    assert(store@.users[i as int].username == username@);
                    assert forall|k: int|
                        0 <= k < store@.users.len() && #[trigger] store@.users[k].username
                            == username@ implies k == i by {
                        if k != i {
                            assert(store@.users[k].username != store@.users[i as int].username);
                        }
                    }
                }
                return Ok(user_of_row(row));
            }
            i += 1;
        }
        Err(CoreError::NotFound)
    }

    /// Authenticates: finds the account whose stored digest matches the
    /// digest of the attempted secret under this username.
    #[verifier::loop_isolation(false)]
    pub fn get_one(store: &Store, uname: String, pw: String) -> (r: Result<User, CoreError>)
        requires
            store@.wf(),
            encode_utf8(uname@).len() < MAX_SECRET_BYTES,
            encode_utf8(pw@).len() < MAX_SECRET_BYTES,
        ensures
            r is Ok <==> (exists|i: int|
                0 <= i < store@.users.len() && #[trigger] store@.users[i].username == uname@
                    && store@.users[i].password == hash_spec(uname@, pw@)),
            r is Err ==> r == Err::<User, CoreError>(CoreError::Unauthorized),
            r is Ok ==> forall|i: int|
                0 <= i < store@.users.len() && #[trigger] store@.users[i].username == uname@
                    ==> r.unwrap()@ == public_user(store@.users[i]),
    {
        let digest = hash(uname.clone(), pw);
        let mut i: usize = 0;
        while i < store.users.len()
            invariant
                i <= store.users.len(),
                digest@ == hash_spec(uname@, pw@),
                forall|k: int|
                    0 <= k < i ==> !(#[trigger] store@.users[k].username == uname@
                        && store@.users[k].password == hash_spec(uname@, pw@)),
            decreases store.users.len() - i,
        {
            let row = &store.users[i];
            if row.username == uname && row.password == digest {
                proof {
                    assert(store@.users[i as int].username == uname@);
                    assert forall|k: int|
                        0 <= k < store@.users.len() && #[trigger] store@.users[k].username
                            == uname@ implies k == i by {
                        if k != i {
                            assert(store@.users[k].username != store@.users[i as int].username);
                        }
                    }
                }
                return Ok(user_of_row(row));
            }
            i += 1;
        }
        Err(CoreError::Unauthorized)
    }
}

/// Holds of account rows that survive deleting `username`.
pub open spec fn user_stays(username: Seq<char>) -> spec_fn(UserRowView) -> bool {
    |u: UserRowView| u.username != username
}

impl User {
    /// Removes an account; reports how many rows went (one exactly when
    /// the username existed).
    #[verifier::loop_isolation(false)]
    pub fn delete(store: &mut Store, uname: String) -> (r: u64)
        requires
            old(store)@.wf(),
        ensures
            final(store)@.wf(),
            r == if old(store)@.has_user(uname@) { 1int } else { 0int },
            final(store)@.users == old(store)@.users.filter(user_stays(uname@)),
            final(store)@.libraries == old(store)@.libraries,
            final(store)@.media == old(store)@.media,
            final(store)@.mediafiles == old(store)@.mediafiles,
            final(store)@.invites == old(store)@.invites,
            final(store)@.next_library_id == old(store)@.next_library_id,
            !final(store)@.has_user(uname@),
    {
        let ghost ousers = old(store)@.users;
        let ghost pred = user_stays(uname@);
        let mut out: Vec<UserRow> = Vec::new();
        let mut count: u64 = 0;
        let mut i: usize = 0;
        proof {
            reveal_with_fuel(Seq::filter, 1);
            assert(ousers.take(0) =~= Seq::<UserRowView>::empty());
            assert(Seq::<UserRowView>::empty().filter(pred) =~= Seq::<UserRowView>::empty());
            assert(users_view(out@) =~= Seq::<UserRowView>::empty());
        }
        while i < store.users.len()
            invariant
                i <= store.users.len(),
                users_view(out@) == ousers.take(i as int).filter(pred),
                count == if (exists|k: int|
                    0 <= k < i && #[trigger] ousers[k].username == uname@) {
                    1int
                } else {
                    0int
                },
            decreases store.users.len() - i,
        {
            let row = &store.users[i];
            proof {
                lemma_filter_take_step(ousers, i as int, pred);
            }
            if row.username == uname {
                proof {
                    assert forall|k: int|
                        0 <= k < i implies !(#[trigger] ousers[k].username == uname@) by {
                        assert(ousers[k].username != ousers[i as int].username);
                    }
                    assert(exists|k: int|
                        0 <= k < i + 1 && #[trigger] ousers[k].username == uname@);
                }
                count = count + 1;
            } else {
                out.push(crate::store::clone_user_row(row));
                proof {
                    assert(users_view(out@) =~= ousers.take(i as int).filter(pred).push(
                        ousers[i as int],
                    ));
                    if exists|k: int| 0 <= k < i + 1 && #[trigger] ousers[k].username == uname@ {
                        let k = choose|k: int|
                            0 <= k < i + 1 && #[trigger] ousers[k].username == uname@;
                        assert(k != i);
                    }
                }
            }
            i += 1;
        }
        store.users = out;
        proof {
            assert(ousers.take(ousers.len() as int) =~= ousers);
            if old(store)@.has_user(uname@) {
                let k = choose|k: int|
                    0 <= k < ousers.len() && #[trigger] ousers[k].username == uname@;
                assert(count == 1);
            }
            let fv = final(store)@;
            lemma_users_wf_filter(ousers, pred);
            assert forall|a: int|
                0 <= a < fv.users.len() implies !(#[trigger] fv.users[a].username == uname@) by {
                Seq::lemma_filter_pred(ousers, pred, a);
                assert(pred(fv.users[a]));
                assert(user_stays(uname@)(fv.users[a]) == (fv.users[a].username != uname@));
            }
            assert(fv.wf());
        }
        count
    }

    /// Resets an account's password to the digest of the new secret.
    #[verifier::loop_isolation(false)]
    pub fn set_password(store: &mut Store, username: String, password: String) -> (r: u64)
        requires
            old(store)@.wf(),
            encode_utf8(username@).len() < MAX_SECRET_BYTES,
            encode_utf8(password@).len() < MAX_SECRET_BYTES,
        ensures
            final(store)@.wf(),
            r == if old(store)@.has_user(username@) { 1int } else { 0int },
            final(store)@.users.len() == old(store)@.users.len(),
            forall|i: int|
                0 <= i < old(store)@.users.len() ==> final(store)@.users[i] == (if old(
                    store,
                )@.users[i].username == username@ {
                    (UserRowView {
                        password: hash_spec(username@, password@),
                        ..old(store)@.users[i]
                    })
                } else {
                    old(store)@.users[i]
                }),
            final(store)@.libraries == old(store)@.libraries,
            final(store)@.media == old(store)@.media,
            final(store)@.mediafiles == old(store)@.mediafiles,
            final(store)@.invites == old(store)@.invites,
            final(store)@.next_library_id == old(store)@.next_library_id,
    {
        let digest = hash(username.clone(), password);
        let ghost ousers = old(store)@.users;
        let mut out: Vec<UserRow> = Vec::new();
        let mut count: u64 = 0;
        let mut i: usize = 0;
        while i < store.users.len()
            invariant
                i <= store.users.len(),
                out.len() == i,
                digest@ == hash_spec(username@, password@),
                forall|j: int|
                    0 <= j < i ==> out@[j]@ == (if ousers[j].username == username@ {
                        (UserRowView { password: hash_spec(username@, password@), ..ousers[j] })
                    } else {
                        ousers[j]
                    }),
                count == if (exists|k: int|
                    0 <= k < i && #[trigger] ousers[k].username == username@) {
                    1int
                } else {
                    0int
                },
            decreases store.users.len() - i,
        {
            let row = &store.users[i];
            if row.username == username {
                let nr = UserRow {
                    username: row.username.clone(),
                    roles: clone_roles(&row.roles),
                    password: digest.clone(),
                    prefs: row.prefs.duplicate(),
                    picture: row.picture,
                    claimed_invite: row.claimed_invite.clone(),
                };
                proof {
                    assert(nr@ =~= (UserRowView {
                        password: hash_spec(username@, password@),
                        ..ousers[i as int]
                    }));
                    assert forall|k: int|
                        0 <= k < i implies !(#[trigger] ousers[k].username == username@) by {
                        assert(ousers[k].username != ousers[i as int].username);
                    }
                    assert(exists|k: int|
                        0 <= k < i + 1 && #[trigger] ousers[k].username == username@);
                }
                out.push(nr);
                count = count + 1;
            } else {
                out.push(crate::store::clone_user_row(row));
                proof {
                    if exists|k: int| 0 <= k < i + 1 && #[trigger] ousers[k].username
                        == username@ {
                        let k = choose|k: int|
                            0 <= k < i + 1 && #[trigger] ousers[k].username == username@;
                        assert(k != i);
                    }
                }
            }
            i += 1;
        }
        store.users = out;
        proof {
            if old(store)@.has_user(username@) {
                let k = choose|k: int|
                    0 <= k < ousers.len() && #[trigger] ousers[k].username == username@;
                assert(count == 1);
            }
            let fv = final(store)@;
            assert forall|a: int|
                0 <= a < fv.users.len() implies (#[trigger] fv.users[a].username)
                == ousers[a].username by {}
            lemma_users_wf_same_names(ousers, fv.users);
            assert(fv.wf());
        }
        count
    }
}

impl User {
    /// Renames an account. The unique-username rule is enforced here:
    /// renaming onto a name already taken by another account is refused.
    #[verifier::loop_isolation(false)]
    pub fn set_username(store: &mut Store, old_username: String, new_username: String) -> (r:
        Result<u64, CoreError>)
        requires
            old(store)@.wf(),
        ensures
            final(store)@.wf(),
            r is Err <==> old_username@ != new_username@ && old(store)@.has_user(new_username@),
            r is Err ==> r == Err::<u64, CoreError>(CoreError::Conflict) && final(store)@
                == old(store)@,
            r is Ok ==> r.unwrap() == if old(store)@.has_user(old_username@) {
                1int
            } else {
                0int
            },
            r is Ok ==> final(store)@.users.len() == old(store)@.users.len() && (forall|i: int|
                0 <= i < old(store)@.users.len() ==> final(store)@.users[i] == (if old(
                    store,
                )@.users[i].username == old_username@ {
                    (UserRowView { username: new_username@, ..old(store)@.users[i] })
                } else {
                    old(store)@.users[i]
                })),
            final(store)@.libraries == old(store)@.libraries,
            final(store)@.media == old(store)@.media,
            final(store)@.mediafiles == old(store)@.mediafiles,
            final(store)@.invites == old(store)@.invites,
            final(store)@.next_library_id == old(store)@.next_library_id,
    {
        let same = old_username == new_username;
        if !same {
            let mut j: usize = 0;
            while j < store.users.len()
                invariant
                    j <= store.users.len(),
                    forall|k: int|
                        0 <= k < j ==> #[trigger] store@.users[k].username != new_username@,
                decreases store.users.len() - j,
            {
                if store.users[j].username == new_username {
                    proof {
                        assert(store@.users[j as int].username == new_username@);
                    }
                    return Err(CoreError::Conflict);
                }
                j += 1;
            }
        }
        let ghost ousers = old(store)@.users;
        let mut out: Vec<UserRow> = Vec::new();
        let mut count: u64 = 0;
        let mut i: usize = 0;
        while i < store.users.len()
            invariant
                i <= store.users.len(),
                out.len() == i,
                forall|j2: int|
                    0 <= j2 < i ==> out@[j2]@ == (if ousers[j2].username == old_username@ {
                        (UserRowView { username: new_username@, ..ousers[j2] })
                    } else {
                        ousers[j2]
                    }),
                count == if (exists|k: int|
                    0 <= k < i && #[trigger] ousers[k].username == old_username@) {
                    1int
                } else {
                    0int
                },
            decreases store.users.len() - i,
        {
            let row = &store.users[i];
            if row.username == old_username {
                let nr = UserRow {
                    username: new_username.clone(),
                    roles: clone_roles(&row.roles),
                    password: row.password.clone(),
                    prefs: row.prefs.duplicate(),
                    picture: row.picture,
                    claimed_invite: row.claimed_invite.clone(),
                };
                proof {
                    assert(ousers[i as int].username == old_username@);
                    assert(nr@ =~= (UserRowView { username: new_username@, ..ousers[i as int] }));
                    assert forall|k: int|
                        0 <= k < i implies !(#[trigger] ousers[k].username == old_username@) by {
                        assert(ousers[k].username != ousers[i as int].username);
                    }
                    assert(exists|k: int|
                        0 <= k < i + 1 && #[trigger] ousers[k].username == old_username@);
                }
                out.push(nr);
                count = count + 1;
            } else {
                out.push(crate::store::clone_user_row(row));
                proof {
                    if exists|k: int| 0 <= k < i + 1 && #[trigger] ousers[k].username
                        == old_username@ {
                        let k = choose|k: int|
                            0 <= k < i + 1 && #[trigger] ousers[k].username == old_username@;
                        assert(k != i);
                    }
                }
            }
            i += 1;
        }
        store.users = out;
        proof {
            if old(store)@.has_user(old_username@) {
                let k = choose|k: int|
                    0 <= k < ousers.len() && #[trigger] ousers[k].username == old_username@;
                assert(count == 1);
            }
            let fv = final(store)@;
            assert forall|a: int, b: int|
                0 <= a < b < fv.users.len() implies fv.users[a].username != fv.users[b].username
                by {
                assert(ousers[a].username != ousers[b].username);
                if same {
                    assert(fv.users[a].username == ousers[a].username);
                    assert(fv.users[b].username == ousers[b].username);
                }
            }
            if same {
                assert(final(store)@ =~~= old(store)@);
            }
            assert(fv.wf());
        }
        Ok(count)
    }

    /// Assigns a picture asset to an account.
    #[verifier::loop_isolation(false)]
    pub fn set_picture(store: &mut Store, username: String, asset_id: i64) -> (r: u64)
        requires
            old(store)@.wf(),
        ensures
            final(store)@.wf(),
            r == if old(store)@.has_user(username@) { 1int } else { 0int },
            final(store)@.users.len() == old(store)@.users.len(),
            forall|i: int|
                0 <= i < old(store)@.users.len() ==> final(store)@.users[i] == (if old(
                    store,
                )@.users[i].username == username@ {
                    (UserRowView { picture: Some(asset_id), ..old(store)@.users[i] })
                } else {
                    old(store)@.users[i]
                }),
            final(store)@.libraries == old(store)@.libraries,
            final(store)@.media == old(store)@.media,
            final(store)@.mediafiles == old(store)@.mediafiles,
            final(store)@.invites == old(store)@.invites,
            final(store)@.next_library_id == old(store)@.next_library_id,
    {
        let ghost ousers = old(store)@.users;
        let mut out: Vec<UserRow> = Vec::new();
        let mut count: u64 = 0;
        let mut i: usize = 0;
        while i < store.users.len()
            invariant
                i <= store.users.len(),
                out.len() == i,
                forall|j: int|
                    0 <= j < i ==> out@[j]@ == (if ousers[j].username == username@ {
                        (UserRowView { picture: Some(asset_id), ..ousers[j] })
                    } else {
                        ousers[j]
                    }),
                count == if (exists|k: int|
                    0 <= k < i && #[trigger] ousers[k].username == username@) {
                    1int
                } else {
                    0int
                },
            decreases store.users.len() - i,
        {
            let row = &store.users[i];
            if row.username == username {
                let nr = UserRow {
                    username: row.username.clone(),
                    roles: clone_roles(&row.roles),
                    password: row.password.clone(),
                    prefs: row.prefs.duplicate(),
                    picture: Some(asset_id),
                    claimed_invite: row.claimed_invite.clone(),
                };
                proof {
                    assert(nr@ =~= (UserRowView { picture: Some(asset_id), ..ousers[i as int] }));
                    assert forall|k: int|
                        0 <= k < i implies !(#[trigger] ousers[k].username == username@) by {
                        assert(ousers[k].username != ousers[i as int].username);
                    }
                    assert(exists|k: int|
                        0 <= k < i + 1 && #[trigger] ousers[k].username == username@);
                }
                out.push(nr);
                count = count + 1;
            } else {
                out.push(crate::store::clone_user_row(row));
                proof {
                    if exists|k: int| 0 <= k < i + 1 && #[trigger] ousers[k].username
                        == username@ {
                        let k = choose|k: int|
                            0 <= k < i + 1 && #[trigger] ousers[k].username == username@;
                        assert(k != i);
                    }
                }
            }
            i += 1;
        }
        store.users = out;
        proof {
            if old(store)@.has_user(username@) {
                let k = choose|k: int|
                    0 <= k < ousers.len() && #[trigger] ousers[k].username == username@;
                assert(count == 1);
            }
            let fv = final(store)@;
            assert forall|a: int|
                0 <= a < fv.users.len() implies (#[trigger] fv.users[a].username)
                == ousers[a].username by {}
            lemma_users_wf_same_names(ousers, fv.users);
            assert(fv.wf());
        }
        count
    }
}

/// What a registration submits: the account fields plus the invite
/// token it claims.
#[derive(Debug)]
pub struct InsertableUser {
    pub username: String,
    pub password: String,
    pub roles: Vec<String>,
    pub prefs: UserSettings,
    pub claimed_invite: String,
}

impl InsertableUser {
    /// Registers the account: refused with a conflict when the username
    /// is taken, refused as invalid when the invite token is absent or
    /// already claimed; otherwise the row is inserted with the hashed
    /// secret and the token is thereby claimed. Validation and insert
    /// run inside one writer transaction, so no two concurrent
    /// registrations can both see the token unclaimed.
    #[verifier::loop_isolation(false)]
    pub fn insert(self, store: &mut Store) -> (r: Result<String, CoreError>)
        requires
            old(store)@.wf(),
            encode_utf8(self.username@).len() < MAX_SECRET_BYTES,
            encode_utf8(self.password@).len() < MAX_SECRET_BYTES,
        ensures
            final(store)@.wf(),
            r is Ok <==> !old(store)@.has_user(self.username@) && old(store)@.invite_usable(
                self.claimed_invite@,
            ),
            r == Err::<String, CoreError>(CoreError::Conflict) <==> old(store)@.has_user(
                self.username@,
            ),
            r == Err::<String, CoreError>(CoreError::InvalidToken) <==> !old(store)@.has_user(
                self.username@,
            ) && !old(store)@.invite_usable(self.claimed_invite@),
            r is Err ==> final(store)@ == old(store)@,
            r is Ok ==> r.unwrap()@ == self.username@,
            r is Ok ==> final(store)@.users == old(store)@.users.push(
                (UserRowView {
                    username: self.username@,
                    roles: crate::store::roles_view(self.roles@),
                    password: hash_spec(self.username@, self.password@),
                    prefs: self.prefs@,
                    picture: None,
                    claimed_invite: self.claimed_invite@,
                }),
            ),
            final(store)@.libraries == old(store)@.libraries,
            final(store)@.media == old(store)@.media,
            final(store)@.mediafiles == old(store)@.mediafiles,
            final(store)@.invites == old(store)@.invites,
            final(store)@.next_library_id == old(store)@.next_library_id,
            r is Ok ==> final(store)@.invite_claimed(self.claimed_invite@),
    {
        let InsertableUser { username, password, roles, prefs, claimed_invite } = self;
        let mut i: usize = 0;
        while i < store.users.len()
            invariant
                i <= store.users.len(),
                forall|k: int|
                    0 <= k < i ==> #[trigger] store@.users[k].username != self.username@,
            decreases store.users.len() - i,
        {
            if store.users[i].username == username {
                proof {
                    assert(store@.users[i as int].username == self.username@);
                }
                return Err(CoreError::Conflict);
            }
            i += 1;
        }
        let mut found: bool = false;
        let mut i: usize = 0;
        while i < store.invites.len()
            invariant
                i <= store.invites.len(),
                found == (exists|k: int|
                    0 <= k < i && #[trigger] store@.invites[k].id == self.claimed_invite@),
            decreases store.invites.len() - i,
        {
            if store.invites[i].id == claimed_invite {
                proof {
                    assert(store@.invites[i as int].id == self.claimed_invite@);
                }
                found = true;
            }
            i += 1;
        }
        if !found {
            return Err(CoreError::InvalidToken);
        }
        let mut i: usize = 0;
        while i < store.users.len()
            invariant
                i <= store.users.len(),
                forall|k: int|
                    0 <= k < i ==> #[trigger] store@.users[k].claimed_invite
                        != self.claimed_invite@,
            decreases store.users.len() - i,
        {
            if store.users[i].claimed_invite == claimed_invite {
                proof {
                    assert(store@.users[i as int].claimed_invite == self.claimed_invite@);
                }
                return Err(CoreError::InvalidToken);
            }
            i += 1;
        }
        let digest = hash(username.clone(), password);
        let ghost ousers = old(store)@.users;
        let row = UserRow {
            username: username.clone(),
            roles,
            password: digest,
            prefs,
            picture: None,
            claimed_invite,
        };
        proof {
            assert(row@ =~= (UserRowView {
                username: self.username@,
                roles: crate::store::roles_view(self.roles@),
                password: hash_spec(self.username@, self.password@),
                prefs: self.prefs@,
                picture: None,
                claimed_invite: self.claimed_invite@,
            }));
        }
        store.users.push(row);
        proof {
            assert(final(store)@.users =~= ousers.push(
                (UserRowView {
                    username: self.username@,
                    roles: crate::store::roles_view(self.roles@),
                    password: hash_spec(self.username@, self.password@),
                    prefs: self.prefs@,
                    picture: None,
                    claimed_invite: self.claimed_invite@,
                }),
            ));
            let fv = final(store)@;
            assert(fv.users[fv.users.len() - 1].claimed_invite == self.claimed_invite@);
            assert(fv.invite_claimed(self.claimed_invite@));
            assert forall|i: int|
                0 <= i < ousers.len() implies (#[trigger] ousers[i].username)
                != self.username@ by {}
            lemma_users_wf_push(ousers, fv.users.last());
            assert(fv.wf());
        }
        Ok(username)
    }
}

/// A partial account update (currently: the preferences blob).
#[derive(Debug)]
pub struct UpdateableUser {
    pub prefs: Option<UserSettings>,
}

impl UpdateableUser {
    /// Replaces the stored preferences of `user` when an update carries
    /// some; reports how many rows changed.
    #[verifier::loop_isolation(false)]
    pub fn update(&self, store: &mut Store, user: &str) -> (r: u64)
        requires
            old(store)@.wf(),
        ensures
            final(store)@.wf(),
            self.prefs is None ==> r == 0 && final(store)@ == old(store)@,
            self.prefs is Some ==> r == (if old(store)@.has_user(user@) { 1int } else { 0int }),
            self.prefs is Some ==> final(store)@.users.len() == old(store)@.users.len() && (
            forall|i: int|
                0 <= i < old(store)@.users.len() ==> final(store)@.users[i] == (if old(
                    store,
                )@.users[i].username == user@ {
                    (UserRowView { prefs: self.prefs.unwrap()@, ..old(store)@.users[i] })
                } else {
                    old(store)@.users[i]
                })),
            final(store)@.libraries == old(store)@.libraries,
            final(store)@.media == old(store)@.media,
            final(store)@.mediafiles == old(store)@.mediafiles,
            final(store)@.invites == old(store)@.invites,
            final(store)@.next_library_id == old(store)@.next_library_id,
    {
        let prefs = match &self.prefs {
            Some(p) => p,
            None => {
                return 0;
            },
        };
        let uname = user.to_owned();
        let ghost ousers = old(store)@.users;
        let mut out: Vec<UserRow> = Vec::new();
        let mut count: u64 = 0;
        let mut i: usize = 0;
        while i < store.users.len()
            invariant
                i <= store.users.len(),
                out.len() == i,
                uname@ == user@,
                forall|j: int|
                    0 <= j < i ==> out@[j]@ == (if ousers[j].username == user@ {
                        (UserRowView { prefs: self.prefs.unwrap()@, ..ousers[j] })
                    } else {
                        ousers[j]
                    }),
                count == if (exists|k: int| 0 <= k < i && #[trigger] ousers[k].username == user@) {
                    1int
                } else {
                    0int
                },
            decreases store.users.len() - i,
        {
            let row = &store.users[i];
            if row.username == uname {
                let nr = UserRow {
                    username: row.username.clone(),
                    roles: clone_roles(&row.roles),
                    password: row.password.clone(),
                    prefs: prefs.duplicate(),
                    picture: row.picture,
                    claimed_invite: row.claimed_invite.clone(),
                };
                proof {
                    assert(ousers[i as int].username == user@);
                    assert(nr@ =~= (UserRowView { prefs: self.prefs.unwrap()@, ..ousers[i as int] }));
                    assert forall|k: int|
                        0 <= k < i implies !(#[trigger] ousers[k].username == user@) by {
                        assert(ousers[k].username != ousers[i as int].username);
                    }
                    assert(exists|k: int| 0 <= k < i + 1 && #[trigger] ousers[k].username == user@);
                }
                out.push(nr);
                count = count + 1;
            } else {
                out.push(crate::store::clone_user_row(row));
                proof {
                    if exists|k: int| 0 <= k < i + 1 && #[trigger] ousers[k].username == user@ {
                        let k = choose|k: int|
                            0 <= k < i + 1 && #[trigger] ousers[k].username == user@;
                        assert(k != i);
                    }
                }
            }
            i += 1;
        }
        store.users = out;
        proof {
            if old(store)@.has_user(user@) {
                let k = choose|k: int|
                    0 <= k < ousers.len() && #[trigger] ousers[k].username == user@;
                assert(count == 1);
            }
            let fv = final(store)@;
            assert forall|a: int|
                0 <= a < fv.users.len() implies (#[trigger] fv.users[a].username)
                == ousers[a].username by {}
            lemma_users_wf_same_names(ousers, fv.users);
            assert(fv.wf());
        }
        count
    }
}

/// A login or registration request: credentials plus, for registration,
/// the invite token being claimed.
#[derive(Debug)]
pub struct Login {
    pub username: String,
    pub password: String,
    pub invite_token: Option<String>,
}

/// Holds of invite rows that survive revoking `token`.
pub open spec fn invite_stays(token: Seq<char>) -> spec_fn(InviteView) -> bool {
    |t: InviteView| t.id != token
}

/// Relies on uuid::Uuid::new_v4 and its hyphenated form: a random
/// version-4 UUID rendered as 36 ASCII characters. Nothing is promised
/// of which value comes back; the call can abort only if the operating
/// system's randomness source fails, an environmental failure no input
/// controls.
#[verifier::external_body]
fn uuid_v4_hyphenated() -> (r: String)
    ensures
        r@.len() == 36,
{
    uuid::Uuid::new_v4().to_hyphenated().to_string()
}

impl Login {
    /// Whether this request carries a token that exists and that no
    /// account has claimed — evaluated inside the same writer
    /// transaction that performs the claiming insert.
    #[verifier::loop_isolation(false)]
    pub fn invite_token_valid(&self, store: &Store) -> (r: bool)
        ensures
            r == (self.invite_token is Some && store@.invite_usable(
                self.invite_token.unwrap()@,
            )),
    {
        let tok = match &self.invite_token {
            None => {
                return false;
            },
            Some(t) => t,
        };
        let mut found: bool = false;
        let mut i: usize = 0;
        while i < store.invites.len()
            invariant
                i <= store.invites.len(),
                found == (exists|k: int|
                    0 <= k < i && #[trigger] store@.invites[k].id == self.invite_token.unwrap()@),
            decreases store.invites.len() - i,
        {
            if store.invites[i].id == *tok {
                proof {
                    assert(store@.invites[i as int].id == self.invite_token.unwrap()@);
                }
                found = true;
            }
            i += 1;
        }
        if !found {
            return false;
        }
        let mut i: usize = 0;
        while i < store.users.len()
            invariant
                i <= store.users.len(),
                forall|k: int|
                    0 <= k < i ==> #[trigger] store@.users[k].claimed_invite
                        != self.invite_token.unwrap()@,
            decreases store.users.len() - i,
        {
            if store.users[i].claimed_invite == *tok {
                proof {
                    assert(store@.users[i as int].claimed_invite == self.invite_token.unwrap()@);
                }
                return false;
            }
            i += 1;
        }
        true
    }

    /// Revokes this request's token outright (administrative cleanup),
    /// claimed or not; reports how many rows went.
    #[verifier::loop_isolation(false)]
    pub fn invalidate_token(&self, store: &mut Store) -> (r: u64)
        requires
            old(store)@.wf(),
        ensures
            final(store)@.wf(),
            self.invite_token is None ==> r == 0 && final(store)@ == old(store)@,
            self.invite_token is Some ==> r == (if old(store)@.has_invite(
                self.invite_token.unwrap()@,
            ) {
                1int
            } else {
                0int
            }),
            self.invite_token is Some ==> final(store)@.invites == old(store)@.invites.filter(
                invite_stays(self.invite_token.unwrap()@),
            ),
            final(store)@.libraries == old(store)@.libraries,
            final(store)@.media == old(store)@.media,
            final(store)@.mediafiles == old(store)@.mediafiles,
            final(store)@.users == old(store)@.users,
            final(store)@.next_library_id == old(store)@.next_library_id,
    {
        let tok = match &self.invite_token {
            None => {
                return 0;
            },
            Some(t) => t,
        };
        remove_invite(store, tok)
    }
}

/// Removes the invite row with this id, claimed or not; one row goes
/// exactly when the token existed.
#[verifier::loop_isolation(false)]
pub fn remove_invite(store: &mut Store, token: &String) -> (r: u64)
    requires
        old(store)@.wf(),
    ensures
        final(store)@.wf(),
        r == if old(store)@.has_invite(token@) { 1int } else { 0int },
        final(store)@.invites == old(store)@.invites.filter(invite_stays(token@)),
        final(store)@.libraries == old(store)@.libraries,
        final(store)@.media == old(store)@.media,
        final(store)@.mediafiles == old(store)@.mediafiles,
        final(store)@.users == old(store)@.users,
        final(store)@.next_library_id == old(store)@.next_library_id,
{
    let ghost oinv = old(store)@.invites;
    let ghost pred = invite_stays(token@);
    let mut out: Vec<Invite> = Vec::new();
    let mut count: u64 = 0;
    let mut i: usize = 0;
    proof {
        reveal_with_fuel(Seq::filter, 1);
        assert(oinv.take(0) =~= Seq::<InviteView>::empty());
        assert(Seq::<InviteView>::empty().filter(pred) =~= Seq::<InviteView>::empty());
        assert(invites_view(out@) =~= Seq::<InviteView>::empty());
    }
    while i < store.invites.len()
        invariant
            i <= store.invites.len(),
            invites_view(out@) == oinv.take(i as int).filter(pred),
            count == if (exists|k: int| 0 <= k < i && #[trigger] oinv[k].id == token@) {
                1int
            } else {
                0int
            },
        decreases store.invites.len() - i,
    {
        let t = &store.invites[i];
        proof {
            lemma_filter_take_step(oinv, i as int, pred);
        }
        if t.id == *token {
            proof {
                assert(oinv[i as int].id == token@);
                assert forall|k: int| 0 <= k < i implies !(#[trigger] oinv[k].id == token@) by {
                    assert(oinv[k].id != oinv[i as int].id);
                }
                assert(exists|k: int| 0 <= k < i + 1 && #[trigger] oinv[k].id == token@);
            }
            count = count + 1;
        } else {
            out.push(crate::store::clone_invite(t));
            proof {
                assert(invites_view(out@) =~= oinv.take(i as int).filter(pred).push(
                    oinv[i as int],
                ));
                if exists|k: int| 0 <= k < i + 1 && #[trigger] oinv[k].id == token@ {
                    let k = choose|k: int| 0 <= k < i + 1 && #[trigger] oinv[k].id == token@;
                    assert(k != i);
                }
            }
        }
        i += 1;
    }
    store.invites = out;
    proof {
        assert(oinv.take(oinv.len() as int) =~= oinv);
        if old(store)@.has_invite(token@) {
            let k = choose|k: int| 0 <= k < oinv.len() && #[trigger] oinv[k].id == token@;
            assert(count == 1);
        }
        let fv = final(store)@;
        lemma_invites_wf_filter(oinv, pred);
        assert(fv.wf());
    }
    count
}

impl Login {
    /// Records a freshly generated token under the given creation time
    /// and returns its id. The generator is random, so a collision with
    /// an existing row cannot be ruled out in general — but the drawn
    /// token is always 36 characters, so issuing is owed success
    /// whenever no stored token has that length (in particular on a
    /// store with no invites at all); `record_invite` fixes the outcome
    /// for every drawn value.
    pub fn new_invite(store: &mut Store, now: i64) -> (r: Result<String, CoreError>)
        requires
            old(store)@.wf(),
        ensures
            final(store)@.wf(),
            r is Ok ==> r.unwrap()@.len() == 36,
            r is Ok ==> !old(store)@.has_invite(r.unwrap()@) && final(store)@.invites == old(
                store,
            )@.invites.push((InviteView { id: r.unwrap()@, date_added: now })),
            r is Err ==> r == Err::<String, CoreError>(CoreError::Conflict) && final(store)@
                == old(store)@,
            (forall|i: int|
                0 <= i < old(store)@.invites.len() ==> (#[trigger] old(
                    store,
                )@.invites[i].id).len() != 36) ==> r is Ok,
            final(store)@.libraries == old(store)@.libraries,
            final(store)@.media == old(store)@.media,
            final(store)@.mediafiles == old(store)@.mediafiles,
            final(store)@.users == old(store)@.users,
            final(store)@.next_library_id == old(store)@.next_library_id,
    {
        let token = uuid_v4_hyphenated();
        proof {
            if forall|i: int|
                0 <= i < old(store)@.invites.len() ==> (#[trigger] old(
                    store,
                )@.invites[i].id).len() != 36 {
                if old(store)@.has_invite(token@) {
                    let k = choose|k: int|
                        0 <= k < old(store)@.invites.len() && #[trigger] old(
                            store,
                        )@.invites[k].id == token@;
                    assert(old(store)@.invites[k].id.len() != 36);
                }
            }
        }
        Login::record_invite(store, token, now)
    }

    /// Records `token` under the given creation time: succeeds exactly
    /// when no invite row already carries this id.
    #[verifier::loop_isolation(false)]
    pub fn record_invite(store: &mut Store, token: String, now: i64) -> (r: Result<
        String,
        CoreError,
    >)
        requires
            old(store)@.wf(),
        ensures
            final(store)@.wf(),
            r is Ok <==> !old(store)@.has_invite(token@),
            r is Ok ==> r.unwrap()@ == token@ && final(store)@.invites == old(
                store,
            )@.invites.push((InviteView { id: token@, date_added: now })),
            r is Err ==> r == Err::<String, CoreError>(CoreError::Conflict) && final(store)@
                == old(store)@,
            final(store)@.libraries == old(store)@.libraries,
            final(store)@.media == old(store)@.media,
            final(store)@.mediafiles == old(store)@.mediafiles,
            final(store)@.users == old(store)@.users,
            final(store)@.next_library_id == old(store)@.next_library_id,
    {
        let mut i: usize = 0;
        while i < store.invites.len()
            invariant
                i <= store.invites.len(),
                forall|k: int| 0 <= k < i ==> #[trigger] store@.invites[k].id != token@,
            decreases store.invites.len() - i,
        {
            if store.invites[i].id == token {
                proof {
                    assert(store@.invites[i as int].id == token@);
                }
                return Err(CoreError::Conflict);
            }
            i += 1;
        }
        let ghost oinv = old(store)@.invites;
        let returned = token.clone();
        store.invites.push(Invite { id: token, date_added: now });
        proof {
            let fv = final(store)@;
            assert(fv.invites =~= oinv.push(
                (InviteView { id: fv.invites.last().id, date_added: now }),
            ));
            assert forall|i2: int|
                0 <= i2 < oinv.len() implies (#[trigger] oinv[i2].id)
                != fv.invites.last().id by {}
            lemma_invites_wf_push(oinv, fv.invites.last());
            assert(fv.wf());
        }
        Ok(returned)
    }

    /// Lists every outstanding token id.
    #[verifier::loop_isolation(false)]
    pub fn get_all_invites(store: &Store) -> (r: Vec<String>)
        ensures
            r@.len() == store@.invites.len(),
            forall|i: int| 0 <= i < r@.len() ==> r@[i]@ == store@.invites[i].id,
    {
        let mut out: Vec<String> = Vec::new();
        let mut i: usize = 0;
        while i < store.invites.len()
            invariant
                i <= store.invites.len(),
                out.len() == i,
                forall|j: int| 0 <= j < i ==> out@[j]@ == store@.invites[j].id,
            decreases store.invites.len() - i,
        {
            out.push(store.invites[i].id.clone());
            i += 1;
        }
        out
    }

    /// Deletes a token only while it is unclaimed; a claimed token's row
    /// stays (it is the registration record's anchor). One row goes
    /// exactly when the token existed unclaimed.
    #[verifier::loop_isolation(false)]
    pub fn delete_token(store: &mut Store, token: String) -> (r: u64)
        requires
            old(store)@.wf(),
        ensures
            final(store)@.wf(),
            r == if old(store)@.invite_usable(token@) { 1int } else { 0int },
            old(store)@.invite_usable(token@) ==> final(store)@.invites == old(
                store,
            )@.invites.filter(invite_stays(token@)),
            !old(store)@.invite_usable(token@) ==> final(store)@ == old(store)@,
            final(store)@.libraries == old(store)@.libraries,
            final(store)@.media == old(store)@.media,
            final(store)@.mediafiles == old(store)@.mediafiles,
            final(store)@.users == old(store)@.users,
            final(store)@.next_library_id == old(store)@.next_library_id,
    {
        let mut i: usize = 0;
        while i < store.users.len()
            invariant
                i <= store.users.len(),
                forall|k: int|
                    0 <= k < i ==> #[trigger] store@.users[k].claimed_invite != token@,
            decreases store.users.len() - i,
        {
            if store.users[i].claimed_invite == token {
                proof {
                    assert(store@.users[i as int].claimed_invite == token@);
                }
                return 0;
            }
            i += 1;
        }
        let n = remove_invite(store, &token);
        proof {
            if !old(store)@.has_invite(token@) {
                let pred = invite_stays(token@);
                assert forall|k: int|
                    0 <= k < old(store)@.invites.len() implies pred(
                    #[trigger] old(store)@.invites[k],
                ) by {
                    assert(old(store)@.invites[k].id != token@);
                }
                lemma_filter_all(old(store)@.invites, pred);
                assert(final(store)@ =~~= old(store)@);
            }
        }
        n
    }
}

/// Law: a claimed token never reads as usable again — after a
/// registration row claiming `token` is added, the registry refuses the
/// same token. Of two registrations racing for one token, serialized by
/// the single writer, both can never succeed, whatever the second's
/// username: `insert` returns Ok only while the token is usable, and
/// this shows it is not in any store holding the first claim's row.
pub proof fn lemma_token_single_use(s: StoreView, row: UserRowView, token: Seq<char>)
    requires
        row.claimed_invite == token,
    ensures
        !(StoreView { users: s.users.push(row), ..s }).invite_usable(token),
{
    let t = (StoreView { users: s.users.push(row), ..s });
    assert(t.users[t.users.len() - 1].claimed_invite == token);
    assert(t.invite_claimed(token));
}

} // verus!
