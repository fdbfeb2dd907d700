//! The entity store: three keyed maps and the registration counter.
//!
//! The store owns every persisted entity.  Users are keyed by the indices
//! the counter mints, recipes by their globally unique name, and images by
//! the name of their recipe.  All cross-entity references go by key, never
//! by embedded copy.  Every mutating endpoint takes the store as an explicit
//! argument; nothing reaches for ambient state.

use vstd::prelude::*;
use crate::encoding::recipe_size;
use crate::encoding::user_size;
use crate::encoding::image_size;
use crate::encoding::RECIPE_MAX_BYTES;
use crate::encoding::USER_MAX_BYTES;
use crate::encoding::IMAGE_MAX_BYTES;
use crate::idxmap::IdxMap;
use crate::images::ImageData;
use crate::images::ImageV;
use crate::recipes::RecipeInfo;
use crate::recipes::RecipeV;
use crate::strmap::StrMap;
use crate::user::User;
use crate::user::UserV;

verus! {

/// One step of the store's mutating interface, seen through the
/// registration counter: `minted` is the index a successful registration
/// handed out, `None` any other outcome or operation.  Every mutating
/// function's contract implies its step — a successful registration mints
/// the pre-state counter and advances it by one, everything else leaves the
/// counter alone — so any sequence of store operations forms a chain of
/// these steps.
pub open spec fn store_step(pre: EntityStore, post: EntityStore, minted: Option<u64>) -> bool {
    match minted {
        Some(i) => i == pre.counter && post.counter == pre.counter + 1,
        None => post.counter == pre.counter,
    }
}

/// The indexed persistence layer.
pub struct EntityStore {
    pub users: IdxMap<User>,
    pub recipes: StrMap<RecipeInfo>,
    pub images: StrMap<ImageData>,
    /// Mints user indices; strictly above every index in use, and never
    /// decreased, so no index is ever reused.
    pub counter: u64,
}

impl EntityStore {
    /// The users map at the level of mathematical values.
    pub open spec fn users_deep(self) -> Map<u64, UserV> {
        self.users.view().map_values(|u: User| u@)
    }

    /// The recipes map at the level of mathematical values.
    pub open spec fn recipes_deep(self) -> Map<Seq<char>, RecipeV> {
        self.recipes.view().map_values(|r: RecipeInfo| r@)
    }

    /// The images map at the level of mathematical values.
    pub open spec fn images_deep(self) -> Map<Seq<char>, ImageV> {
        self.images.view().map_values(|i: ImageData| i@)
    }

    /// The store's invariant.
    ///
    /// Beyond the structural uniqueness of each map's keys: the counter is
    /// strictly above every user index in use, at most one user exists per
    /// identity token, and every stored entity respects its kind's encoded
    /// size ceiling.
    pub open spec fn wf(self) -> bool {
        &&& self.users.wf()
        &&& self.recipes.wf()
        &&& self.images.wf()
        &&& self.counter >= 1
        &&& forall|k: u64| #[trigger] self.users_deep().contains_key(k) ==> k < self.counter
        &&& forall|k1: u64, k2: u64|
            self.users_deep().contains_key(k1) && self.users_deep().contains_key(k2)
                && #[trigger] self.users_deep()[k1].id == #[trigger] self.users_deep()[k2].id
                ==> k1 == k2
        &&& forall|k: u64| #[trigger] self.users_deep().contains_key(k)
            ==> user_size(self.users_deep()[k]) <= USER_MAX_BYTES
        &&& forall|k: Seq<char>| #[trigger] self.recipes_deep().contains_key(k)
            ==> recipe_size(self.recipes_deep()[k]) <= RECIPE_MAX_BYTES
        &&& forall|k: Seq<char>| #[trigger] self.images_deep().contains_key(k)
            ==> image_size(self.images_deep()[k]) <= IMAGE_MAX_BYTES
    }

    /// Whether some user record is owned by the identity `id`.
    pub open spec fn has_user_with_id(self, id: Seq<u8>) -> bool {
        exists|k: u64| #[trigger] self.users_deep().contains_key(k) && self.users_deep()[k].id == id
    }

    /// The index of the user record owned by `id`; under the store
    /// invariant there is at most one.
    pub open spec fn user_index_of(self, id: Seq<u8>) -> u64 {
        choose|k: u64| #[trigger] self.users_deep().contains_key(k) && self.users_deep()[k].id == id
    }

    /// Content that does not change keeps its mathematical value: the deep
    /// view of each map is a function of that map alone.
    pub proof fn lemma_content_frame(pre: EntityStore, post: EntityStore)
        ensures
            post.users == pre.users ==> post.users_deep() == pre.users_deep(),
            post.recipes == pre.recipes ==> post.recipes_deep() == pre.recipes_deep(),
            post.images == pre.images ==> post.images_deep() == pre.images_deep(),
    {
    }

    /// A fresh, empty store.  The counter starts at one, so index zero is
    /// never minted.
    pub fn new() -> (r: Self)
        ensures
            r.wf(),
            r.users_deep() =~= Map::<u64, UserV>::empty(),
            r.recipes_deep() =~= Map::<Seq<char>, RecipeV>::empty(),
            r.images_deep() =~= Map::<Seq<char>, ImageV>::empty(),
            r.counter == 1,
            r.recipes.keys() == Seq::<Seq<char>>::empty(),
            r.users.keys() == Seq::<u64>::empty(),
    {
        EntityStore {
            users: IdxMap::new(),
            recipes: StrMap::new(),
            images: StrMap::new(),
            counter: 1,
        }
    }
}

} // verus!
