//! Users and the identities that own them.
//!
//! The calling environment hands every request an opaque identity token; the
//! store keeps at most one [`User`] per token.  User records are keyed by
//! the indices minted by the registration counter, never reused.

use vstd::prelude::*;
use crate::Error;
use crate::encoding::user_size;
use crate::encoding::user_fits;
use crate::encoding::USER_MAX_BYTES;
use crate::store::EntityStore;
use crate::store::store_step;
use crate::util::clone_u8_vec;

verus! {

/// An opaque identity token of the calling environment, carried as its raw
/// bytes.  The anonymous identity is the one-byte token `[4]`.
pub struct PrincipalId {
    pub bytes: Vec<u8>,
}

/// The byte sequence of the anonymous identity.
pub open spec fn anonymous_bytes() -> Seq<u8> {
    seq![4u8]
}

impl View for PrincipalId {
    type V = Seq<u8>;

    open spec fn view(&self) -> Seq<u8> {
        self.bytes@
    }
}

impl Clone for PrincipalId {
    fn clone(&self) -> (r: Self)
        ensures
            r@ == self@,
    {
        PrincipalId { bytes: clone_u8_vec(&self.bytes) }
    }
}

impl PrincipalId {
    pub fn eq_principal(&self, other: &PrincipalId) -> (r: bool)
        ensures
            r == (self@ == other@),
    {
        let n = self.bytes.len();
        if n != other.bytes.len() {
            return false;
        }
        let mut i: usize = 0;
        while i < n
            invariant
                0 <= i <= n,
                n == self.bytes@.len(),
                n == other.bytes@.len(),
                forall|j: int| 0 <= j < i ==> self.bytes@[j] == other.bytes@[j],
            decreases n - i,
        {
            if self.bytes[i] != other.bytes[i] {
                return false;
            }
            i += 1;
        }
        proof {
            assert(self@ =~= other@);
        }
        true
    }

    pub fn is_anonymous(&self) -> (r: bool)
        ensures
            r == (self@ == anonymous_bytes()),
    {
        if self.bytes.len() == 1 && self.bytes[0] == 4 {
            proof {
                assert(self@ =~= anonymous_bytes());
            }
            true
        } else {
            proof {
                assert(self@ != anonymous_bytes()) by {
                    if self@ == anonymous_bytes() {
                        assert(self.bytes@.len() == 1);
                        assert(self.bytes@[0] == 4);
                    }
                }
            }
            false
        }
    }
}

/// A registered user: the identity that owns the record and a display name.
pub struct User {
    pub id: PrincipalId,
    pub name: String,
}

/// The mathematical value of a [`User`].
#[verifier::ext_equal]
pub struct UserV {
    pub id: Seq<u8>,
    pub name: Seq<char>,
}

impl View for User {
    type V = UserV;

    open spec fn view(&self) -> UserV {
        UserV { id: self.id@, name: self.name@ }
    }
}

impl Clone for User {
    fn clone(&self) -> (r: Self)
        ensures
            r@ == self@,
    {
        User { id: self.id.clone(), name: self.name.clone() }
    }
}

impl User {
    pub fn new(id: PrincipalId, name: String) -> (r: Self)
        ensures
            r@ == (UserV { id: id@, name: name@ }),
    {
        User { id, name }
    }
}

/// Finds the index of the user owned by `id`, scanning the user records.
/// With the store invariant there is at most one such record.
pub fn get_user_index_of(store: &EntityStore, id: &PrincipalId) -> (r: Option<u64>)
    requires
        store.wf(),
    ensures
        match r {
            Some(i) => store.users_deep().contains_key(i) && store.users_deep()[i].id == id@,
            None => !store.has_user_with_id(id@),
        },
{
    let n = store.users.len();
    let mut j: usize = 0;
    while j < n
        invariant
            0 <= j <= n,
            n == store.users.keys().len(),
            store.wf(),
            forall|t: int|
                0 <= t < j ==> store.users_deep()[#[trigger] store.users.keys()[t]].id != id@,
        decreases n - j,
    {
        let key = store.users.key_at(j);
        let u = store.users.value_at(j);
        if u.id.eq_principal(id) {
            return Some(key);
        }
        j += 1;
    }
    proof {
        store.users.lemma_keys_in_map();
        assert(!store.has_user_with_id(id@)) by {
            if store.has_user_with_id(id@) {
                let k = choose|k: u64|
                    #[trigger] store.users_deep().contains_key(k) && store.users_deep()[k].id
                        == id@;
                assert(store.users.keys().contains(k));
                let t = choose|t: int|
                    0 <= t < store.users.keys().len() && store.users.keys()[t] == k;
                assert(store.users_deep()[store.users.keys()[t]].id != id@);
            }
        }
    }
    None
}

/// Registers a user for the caller's identity.
///
/// A registration that registers nobody moves nothing: a duplicate identity
/// is rejected with `UserAlreadyExists` and a record over the user size
/// ceiling with `EntityTooLarge`, both leaving the store — the counter
/// included — exactly as it was.  A successful registration mints the
/// counter's value as the new index and advances the counter exactly once,
/// so no index is ever handed out twice.
pub fn create_user(store: &mut EntityStore, caller: PrincipalId, name: String) -> (r: Result<
    u64,
    Error,
>)
    requires
        old(store).wf(),
        old(store).counter < u64::MAX,
    ensures
        final(store).wf(),
        final(store).recipes == old(store).recipes,
        final(store).images == old(store).images,
        store_step(
            *old(store),
            *final(store),
            match r {
                Ok(idx) => Some(idx),
                Err(_) => None,
            },
        ),
        ({
            let u = UserV { id: caller@, name: name@ };
            if user_size(u) > USER_MAX_BYTES {
                &&& r matches Err(e) && e is EntityTooLarge
                &&& *final(store) == *old(store)
            } else if old(store).has_user_with_id(caller@) {
                &&& r matches Err(e) && e is UserAlreadyExists
                &&& *final(store) == *old(store)
            } else {
                &&& r matches Ok(idx) && idx == old(store).counter
                &&& final(store).users_deep() =~= old(store).users_deep().insert(
                    old(store).counter,
                    u,
                )
                &&& final(store).counter == old(store).counter + 1
            }
        }),
{
    let user = User::new(caller, name);
    if !user_fits(&user) {
        return Err(Error::EntityTooLarge { msg: String::from_str("User record is too large") });
    }
    if get_user_index_of(store, &user.id).is_some() {
        return Err(Error::UserAlreadyExists { msg: String::from_str("User already exists") });
    }
    let index = store.counter;
    store.counter = store.counter + 1;
    proof {
        assert(store.users == old(store).users);
        assert(store.users_deep() =~= old(store).users_deep());
        assert(store.recipes_deep() =~= old(store).recipes_deep());
        assert(store.images_deep() =~= old(store).images_deep());
        assert(store.wf());
        assert(!store.users_deep().contains_key(index)) by {
            if store.users_deep().contains_key(index) {
                assert(old(store).users_deep().contains_key(index));
                assert(index < old(store).counter);
            }
        }
    }
    store.users.insert(index, user);
    proof {
        assert(store.users_deep() =~= old(store).users_deep().insert(
            index,
            UserV { id: user@.id, name: user@.name },
        ));
        assert forall|k: u64| #[trigger] store.users_deep().contains_key(k) implies k
            < store.counter by {
            if k != index {
                assert(old(store).users_deep().contains_key(k));
            }
        }
        assert forall|k1: u64, k2: u64|
            store.users_deep().contains_key(k1) && store.users_deep().contains_key(k2)
                && #[trigger] store.users_deep()[k1].id == #[trigger] store.users_deep()[k2].id
                implies k1 == k2 by {
            if k1 != index && k2 != index {
                assert(old(store).users_deep().contains_key(k1));
                assert(old(store).users_deep().contains_key(k2));
            } else if k1 == index && k2 != index {
                assert(old(store).users_deep().contains_key(k2));
                assert(!old(store).has_user_with_id(store.users_deep()[k2].id));
            } else if k2 == index && k1 != index {
                assert(old(store).users_deep().contains_key(k1));
                assert(!old(store).has_user_with_id(store.users_deep()[k1].id));
            }
        }
    }
    Ok(index)
}

/// Renames the user at `index`, when the caller is its owner.
///
/// An unknown index, an empty name, an anonymous or foreign caller, and an
/// oversized record are each rejected with their own error; only the owning
/// identity can rename, and nothing else in the store moves.
pub fn update_username(store: &mut EntityStore, caller: &PrincipalId, index: u64, name: String) -> (r:
    Result<User, Error>)
    requires
        old(store).wf(),
    ensures
        final(store).wf(),
        final(store).counter == old(store).counter,
        store_step(*old(store), *final(store), None),
        final(store).recipes == old(store).recipes,
        final(store).images == old(store).images,
        ({
            let m = old(store).users_deep();
            if !m.contains_key(index) {
                &&& r matches Err(e) && e is UserNotFound
                &&& final(store).users == old(store).users
            } else if name@.len() == 0 {
                &&& r matches Err(e) && e is InvalidName
                &&& final(store).users == old(store).users
            } else if caller@ == anonymous_bytes() || m[index].id != caller@ {
                &&& r matches Err(e) && e is CallerNotAuthorized
                &&& final(store).users == old(store).users
            } else if user_size(UserV { id: m[index].id, name: name@ }) > USER_MAX_BYTES {
                &&& r matches Err(e) && e is EntityTooLarge
                &&& final(store).users == old(store).users
            } else {
                &&& r matches Ok(u) && u@ == (UserV { id: m[index].id, name: name@ })
                &&& final(store).users_deep() =~= m.insert(
                    index,
                    UserV { id: m[index].id, name: name@ },
                )
                &&& final(store).users.keys() =~= old(store).users.keys()
            }
        }),
{
    let uid: Option<PrincipalId> = match store.users.get(index) {
        Some(u) => Some(u.id.clone()),
        None => None,
    };
    match uid {
        None => {
            proof {
                EntityStore::lemma_content_frame(*old(store), *store);
            }
            Err(Error::UserNotFound { msg: String::from_str("User not found") })
        },
        Some(uid) => {
            proof {
                EntityStore::lemma_content_frame(*old(store), *store);
            }
            if name.as_str().is_empty() {
                return Err(Error::InvalidName { msg: String::from_str("Name cannot be empty") });
            }
            if caller.is_anonymous() || !uid.eq_principal(caller) {
                return Err(Error::CallerNotAuthorized {
                    msg: String::from_str("The caller is not authorized"),
                });
            }
            let updated = User { id: uid, name };
            if !user_fits(&updated) {
                return Err(Error::EntityTooLarge {
                    msg: String::from_str("User record is too large"),
                });
            }
            let ret = updated.clone();
            store.users.insert(index, updated);
            proof {
                EntityStore::lemma_content_frame(*old(store), *store);
            }
            proof {
                assert(store.users_deep() =~= old(store).users_deep().insert(index, updated@));
                assert forall|k: u64| #[trigger] store.users_deep().contains_key(k) implies k
                    < store.counter by {
                    assert(old(store).users_deep().contains_key(k));
                }
                assert forall|k1: u64, k2: u64|
                    store.users_deep().contains_key(k1) && store.users_deep().contains_key(k2)
                        && #[trigger] store.users_deep()[k1].id
                        == #[trigger] store.users_deep()[k2].id implies k1 == k2 by {
                    assert(old(store).users_deep().contains_key(k1));
                    assert(old(store).users_deep().contains_key(k2));
                    assert(old(store).users_deep()[k1].id == store.users_deep()[k1].id);
                    assert(old(store).users_deep()[k2].id == store.users_deep()[k2].id);
                }
            }
            Ok(ret)
        },
    }
}

/// Deletes the caller's user record, cascading to everything it owns: every
/// recipe whose author is that user, and the image under each such recipe's
/// name, are removed in the same call, before the record itself.
pub fn delete_user(store: &mut EntityStore, caller: &PrincipalId) -> (r: Result<String, Error>)
    requires
        old(store).wf(),
    ensures
        final(store).wf(),
        final(store).counter == old(store).counter,
        store_step(*old(store), *final(store), None),
        ({
            if !old(store).has_user_with_id(caller@) {
                &&& r matches Err(e) && e is UserNotFound
                &&& *final(store) == *old(store)
            } else {
                let idx = old(store).user_index_of(caller@);
                &&& r matches Ok(_)
                &&& final(store).users_deep() =~= old(store).users_deep().remove(idx)
                &&& final(store).recipes_deep() =~= old(store).recipes_deep().remove_keys(
                    crate::recipes::owned_recipe_keys(*old(store), idx),
                )
                &&& final(store).images_deep() =~= old(store).images_deep().remove_keys(
                    crate::recipes::owned_recipe_keys(*old(store), idx),
                )
            }
        }),
{
    let user_index = match get_user_index(store, caller) {
        Ok(i) => i,
        Err(e) => {
            proof {
                EntityStore::lemma_content_frame(*old(store), *store);
            }
            return Err(e);
        },
    };
    proof {
        assert(old(store).users_deep().contains_key(old(store).user_index_of(caller@))
            && old(store).users_deep()[old(store).user_index_of(caller@)].id == caller@);
        assert(old(store).user_index_of(caller@) == user_index);
    }
    crate::recipes::delete_recipes_and_images_by_author(store, user_index);
    let ghost mid = *store;
    store.users.remove(user_index);
    proof {
        EntityStore::lemma_content_frame(mid, *store);
        assert(store.users_deep() =~= old(store).users_deep().remove(user_index));
        assert forall|k: u64| #[trigger] store.users_deep().contains_key(k) implies k
            < store.counter by {
            assert(old(store).users_deep().contains_key(k));
        }
        assert forall|k1: u64, k2: u64|
            store.users_deep().contains_key(k1) && store.users_deep().contains_key(k2)
                && #[trigger] store.users_deep()[k1].id == #[trigger] store.users_deep()[k2].id
                implies k1 == k2 by {
            assert(old(store).users_deep().contains_key(k1));
            assert(old(store).users_deep().contains_key(k2));
        }
        assert forall|k: u64| #[trigger] store.users_deep().contains_key(k) implies user_size(
            store.users_deep()[k],
        ) <= USER_MAX_BYTES by {
            assert(old(store).users_deep().contains_key(k));
        }
    }
    Ok(String::from_str("User deleted successfully"))
}

/// Looks a user up by index.
pub fn get_user_by_index(store: &EntityStore, index: u64) -> (r: Result<User, Error>)
    requires
        store.wf(),
    ensures
        match r {
            Ok(u) => store.users_deep().contains_key(index) && u@ == store.users_deep()[index],
            Err(e) => e is UserNotFound && !store.users_deep().contains_key(index),
        },
{
    match store.users.get(index) {
        Some(u) => Ok(u.clone()),
        None => Err(Error::UserNotFound { msg: String::from_str("User not found") }),
    }
}

/// The index of the caller's own user record.
pub fn get_user_index(store: &EntityStore, caller: &PrincipalId) -> (r: Result<u64, Error>)
    requires
        store.wf(),
    ensures
        match r {
            Ok(i) => store.users_deep().contains_key(i) && store.users_deep()[i].id == caller@,
            Err(e) => e is UserNotFound && !store.has_user_with_id(caller@),
        },
{
    match get_user_index_of(store, caller) {
        Some(i) => Ok(i),
        None => Err(Error::UserNotFound {
            msg: String::from_str("You are not authenticated - login to perform this action"),
        }),
    }
}

/// The display name of the user at `index`, if any.
pub fn get_username_by_index(store: &EntityStore, index: u64) -> (r: Option<String>)
    requires
        store.wf(),
    ensures
        match r {
            Some(s) => store.users_deep().contains_key(index) && s@ == store.users_deep()[index].name,
            None => !store.users_deep().contains_key(index),
        },
{
    match store.users.get(index) {
        Some(u) => Some(u.name.clone()),
        None => None,
    }
}

/// The caller's own user record.
pub fn get_user_info(store: &EntityStore, caller: &PrincipalId) -> (r: Result<User, Error>)
    requires
        store.wf(),
    ensures
        match r {
            Ok(u) => store.has_user_with_id(caller@) && u@.id == caller@
                && store.users_deep().contains_key(store.user_index_of(caller@))
                && u@ == store.users_deep()[store.user_index_of(caller@)],
            Err(e) => e is UserNotFound && !store.has_user_with_id(caller@),
        },
{
    match get_user_index_of(store, caller) {
        Some(i) => {
            proof {
                assert(store.users_deep().contains_key(store.user_index_of(caller@))
                    && store.users_deep()[store.user_index_of(caller@)].id == caller@);
                assert(store.user_index_of(caller@) == i);
            }
            match store.users.get(i) {
                Some(u) => Ok(u.clone()),
                // The index was just found, so the record is there.
                None => vstd::pervasive::unreached(),
            }
        },
        None => Err(Error::UserNotFound {
            msg: String::from_str("You are not authenticated - login to perform this action"),
        }),
    }
}

/// All user records, in ascending index order; an empty store is reported
/// as `UserNotFound`.
pub fn get_all_users(store: &EntityStore) -> (r: Result<Vec<User>, Error>)
    requires
        store.wf(),
    ensures
        match r {
            Ok(v) => store.users.keys().len() > 0 && v@.len() == store.users.keys().len()
                && forall|i: int|
                    0 <= i < v@.len() ==> (#[trigger] v@[i])@ == store.users_deep()[store.users.keys()[i]],
            Err(e) => e is UserNotFound && store.users.keys().len() == 0,
        },
{
    let n = store.users.len();
    let mut records: Vec<User> = Vec::new();
    let mut j: usize = 0;
    while j < n
        invariant
            0 <= j <= n,
            n == store.users.keys().len(),
            store.wf(),
            records@.len() == j,
            forall|i: int|
                0 <= i < j ==> (#[trigger] records@[i])@ == store.users_deep()[store.users.keys()[i]],
        decreases n - j,
    {
        let u = store.users.value_at(j);
        records.push(u.clone());
        j += 1;
    }
    if records.is_empty() {
        Err(Error::UserNotFound { msg: String::from_str("No users found") })
    } else {
        Ok(records)
    }
}

/// No index the counter will mint is in use: the registration counter sits
/// strictly above every stored user index, so indices are never reused,
/// even after deletions.
pub proof fn lemma_minted_index_fresh(s: EntityStore)
    requires
        s.wf(),
    ensures
        !s.users_deep().contains_key(s.counter),
{
}

/// Along a chain of store operations the counter never decreases.
proof fn lemma_trace_counter_monotone(states: Seq<EntityStore>, mints: Seq<Option<u64>>, j: int)
    requires
        states.len() == mints.len() + 1,
        forall|t: int|
            0 <= t < mints.len() ==> #[trigger] store_step(states[t], states[t + 1], mints[t]),
        0 <= j < states.len(),
    ensures
        forall|i: int| 0 <= i <= j ==> #[trigger] states[i].counter <= states[j].counter,
    decreases j,
{
    if j > 0 {
        lemma_trace_counter_monotone(states, mints, j - 1);
        let t = j - 1;
        assert(store_step(states[t], states[t + 1], mints[t]));
        assert(states[j - 1].counter <= states[j].counter);
    }
}

/// Counter monotonicity: along any sequence of store operations —
/// registrations, renames, deletions, recipe writes, ingestion, whatever
/// their order and outcome — the indices minted by successful registrations
/// are strictly increasing.  No index is ever repeated, even after failed
/// registrations or after the user it named was deleted.  Each mutating
/// function's contract states its own `store_step`, so any run of the
/// store's interface satisfies the chain hypothesis.
pub proof fn lemma_counter_monotonicity(
    states: Seq<EntityStore>,
    mints: Seq<Option<u64>>,
    a: int,
    b: int,
)
    requires
        states.len() == mints.len() + 1,
        forall|t: int|
            0 <= t < mints.len() ==> #[trigger] store_step(states[t], states[t + 1], mints[t]),
        0 <= a < b < mints.len(),
        mints[a] is Some,
        mints[b] is Some,
    ensures
        mints[b]->Some_0 > mints[a]->Some_0,
{
    assert(store_step(states[a], states[a + 1], mints[a]));
    assert(store_step(states[b], states[b + 1], mints[b]));
    lemma_trace_counter_monotone(states, mints, b);
    assert(states[a + 1].counter <= states[b].counter);
}

} // verus!
