//! Recipe records, their projections, and the recipe payloads of
//! user-authored submissions.

use vstd::prelude::*;
use crate::Error;
use crate::encoding::recipe_fits;
use crate::encoding::image_fits;
use crate::encoding::recipe_size;
use crate::encoding::image_size;
use crate::encoding::RECIPE_MAX_BYTES;
use crate::encoding::IMAGE_MAX_BYTES;
use crate::images::ImageData;
use crate::images::ImageV;
use crate::store::EntityStore;
use crate::store::store_step;
use crate::user::PrincipalId;
use crate::user::get_username_by_index;
use crate::util::clone_string_vec;
use crate::util::clone_u64_vec;
use crate::util::str_eq;

verus! {

/// At most this many tags are shown in a brief listing entry.
pub const TAGS_MAX_LENGTH: usize = 5;

/// A stored recipe.  `popular` marks entries that came from the curated
/// ingestion feed; `author_id` is set exactly for user-authored recipes and
/// refers to a user index.
pub struct RecipeInfo {
    pub instructions: Vec<String>,
    pub ingredients: Vec<String>,
    pub tags: Vec<String>,
    pub cuisines: Vec<String>,
    pub total_time_in_seconds: u16,
    pub popular: bool,
    pub author_id: Option<u64>,
    pub likes: Vec<u64>,
}

/// The mathematical value of a [`RecipeInfo`].
#[verifier::ext_equal]
pub struct RecipeV {
    pub instructions: Seq<Seq<char>>,
    pub ingredients: Seq<Seq<char>>,
    pub tags: Seq<Seq<char>>,
    pub cuisines: Seq<Seq<char>>,
    pub total_time_in_seconds: u16,
    pub popular: bool,
    pub author_id: Option<u64>,
    pub likes: Seq<u64>,
}

impl View for RecipeInfo {
    type V = RecipeV;

    open spec fn view(&self) -> RecipeV {
        RecipeV {
            instructions: self.instructions.deep_view(),
            ingredients: self.ingredients.deep_view(),
            tags: self.tags.deep_view(),
            cuisines: self.cuisines.deep_view(),
            total_time_in_seconds: self.total_time_in_seconds,
            popular: self.popular,
            author_id: self.author_id,
            likes: self.likes@,
        }
    }
}

impl Clone for RecipeInfo {
    fn clone(&self) -> (r: Self)
        ensures
            r@ == self@,
    {
        let r = RecipeInfo {
            instructions: clone_string_vec(&self.instructions),
            ingredients: clone_string_vec(&self.ingredients),
            tags: clone_string_vec(&self.tags),
            cuisines: clone_string_vec(&self.cuisines),
            total_time_in_seconds: self.total_time_in_seconds,
            popular: self.popular,
            author_id: self.author_id,
            likes: clone_u64_vec(&self.likes),
        };
        proof {
            assert(r@ =~= self@);
        }
        r
    }
}

impl RecipeInfo {
    /// A fresh recipe record with no likes yet.
    pub fn new(
        instructions: Vec<String>,
        ingredients: Vec<String>,
        tags: Vec<String>,
        cuisines: Vec<String>,
        total_time_in_seconds: u16,
        popular: bool,
        author_id: Option<u64>,
    ) -> (r: Self)
        ensures
            r@ == (RecipeV {
                instructions: instructions.deep_view(),
                ingredients: ingredients.deep_view(),
                tags: tags.deep_view(),
                cuisines: cuisines.deep_view(),
                total_time_in_seconds,
                popular,
                author_id,
                likes: Seq::<u64>::empty(),
            }),
    {
        let r = RecipeInfo {
            instructions,
            ingredients,
            tags,
            cuisines,
            total_time_in_seconds,
            popular,
            author_id,
            likes: Vec::new(),
        };
        proof {
            assert(r@ =~= (RecipeV {
                instructions: r.instructions.deep_view(),
                ingredients: r.ingredients.deep_view(),
                tags: r.tags.deep_view(),
                cuisines: r.cuisines.deep_view(),
                total_time_in_seconds,
                popular,
                author_id,
                likes: Seq::<u64>::empty(),
            }));
        }
        r
    }
}

/// The character sequences of an optional string.
pub open spec fn opt_str_view(o: Option<String>) -> Option<Seq<char>> {
    match o {
        Some(s) => Some(s@),
        None => None,
    }
}

/// The projection of a recipe that listings return: the name, the first few
/// tags, the total time in minutes, and the author's display name when the
/// recipe has an author.
pub struct RecipeBriefResponse {
    pub name: String,
    pub tags: Vec<String>,
    pub total_time: u16,
    pub author: Option<String>,
}

impl RecipeBriefResponse {
    pub fn new(name: String, tags: Vec<String>, total_time: u16, author: Option<String>) -> (r:
        Self)
        ensures
            r.name@ == name@,
            r.tags.deep_view() == tags.deep_view(),
            r.total_time == total_time,
            opt_str_view(r.author) == opt_str_view(author),
    {
        RecipeBriefResponse { name, tags, total_time, author }
    }
}

/// What a brief listing entry must hold for the recipe stored as `recipe`
/// under `name`, given the author display name `author`: the first
/// `TAGS_MAX_LENGTH` tags and the cooking time in minutes.
pub open spec fn is_brief_of(
    brief: RecipeBriefResponse,
    name: Seq<char>,
    recipe: RecipeV,
    author: Option<Seq<char>>,
) -> bool {
    &&& brief.name@ == name
    &&& brief.tags.deep_view() == recipe.tags.take(
        if recipe.tags.len() <= TAGS_MAX_LENGTH { recipe.tags.len() as int } else { TAGS_MAX_LENGTH as int },
    )
    &&& brief.total_time == recipe.total_time_in_seconds / 60
    &&& opt_str_view(brief.author) == author
}

/// Builds the brief listing entry for one stored recipe.
pub fn transform_recipe_to_brief_response(
    name: String,
    recipe: RecipeInfo,
    author_name: Option<String>,
) -> (r: RecipeBriefResponse)
    ensures
        is_brief_of(r, name@, recipe@, opt_str_view(author_name)),
{
    let count = if recipe.tags.len() < TAGS_MAX_LENGTH {
        recipe.tags.len()
    } else {
        TAGS_MAX_LENGTH
    };
    let mut first_tags: Vec<String> = Vec::new();
    let mut i: usize = 0;
    while i < count
        invariant
            0 <= i <= count,
            count <= recipe.tags@.len(),
            first_tags@.len() == i,
            forall|j: int| 0 <= j < i ==> first_tags@[j] == recipe.tags@[j],
        decreases count - i,
    {
        first_tags.push(recipe.tags[i].clone());
        i += 1;
    }
    proof {
        assert forall|j: int| 0 <= j < count implies first_tags.deep_view()[j]
            == recipe.tags.deep_view().take(count as int)[j] by {
            assert(first_tags@[j] == recipe.tags@[j]);
        }
        assert(first_tags.deep_view() =~= recipe.tags.deep_view().take(count as int));
    }
    RecipeBriefResponse::new(name, first_tags, recipe.total_time_in_seconds / 60, author_name)
}

/// A user-authored recipe submission.
pub struct RecipePayload {
    pub name: String,
    pub instructions: Vec<String>,
    pub ingredients: Vec<String>,
    pub tags: Vec<String>,
    pub cuisines: Vec<String>,
    pub total_time_in_seconds: u16,
    pub image: String,
    pub author_id: u64,
}

/// The recipe record a payload submits: never curated, owned by the
/// submitting user, with no likes yet.
pub open spec fn payload_recipe_view(p: RecipePayload) -> RecipeV {
    RecipeV {
        instructions: p.instructions.deep_view(),
        ingredients: p.ingredients.deep_view(),
        tags: p.tags.deep_view(),
        cuisines: p.cuisines.deep_view(),
        total_time_in_seconds: p.total_time_in_seconds,
        popular: false,
        author_id: Some(p.author_id),
        likes: Seq::<u64>::empty(),
    }
}

/// The author display name a lookup pairs with a recipe: the name of the
/// referenced user when that user exists.
pub open spec fn author_name_view(s: EntityStore, author_id: Option<u64>) -> Option<Seq<char>> {
    match author_id {
        Some(aid) => if s.users_deep().contains_key(aid) {
            Some(s.users_deep()[aid].name)
        } else {
            None
        },
        None => None,
    }
}

/// Whether a recipe with this name is stored.
pub fn recipe_exists(store: &EntityStore, name: String) -> (b: bool)
    ensures
        b == store.recipes_deep().contains_key(name@),
{
    store.recipes.contains_key(&name)
}

/// How many recipes are stored.
pub fn get_recipes_len(store: &EntityStore) -> (n: u64)
    ensures
        n == store.recipes.keys().len(),
{
    store.recipes.len() as u64
}

/// The stored recipe names, in key order.
pub fn take_recipes_names(store: &EntityStore) -> (r: Vec<String>)
    ensures
        r@.len() == store.recipes.keys().len(),
        forall|i: int| 0 <= i < r@.len() ==> (#[trigger] r@[i])@ == store.recipes.keys()[i],
{
    let n = store.recipes.len();
    let mut names: Vec<String> = Vec::new();
    let mut j: usize = 0;
    while j < n
        invariant
            0 <= j <= n,
            n == store.recipes.keys().len(),
            names@.len() == j,
            forall|i: int| 0 <= i < j ==> (#[trigger] names@[i])@ == store.recipes.keys()[i],
        decreases n - j,
    {
        names.push(store.recipes.key_at(j).clone());
        j += 1;
    }
    names
}

/// The stored recipe names, or `RecipesNotFound` when the store holds none.
pub fn get_recipes_names(store: &EntityStore) -> (r: Result<Vec<String>, Error>)
    ensures
        match r {
            Ok(v) => store.recipes.keys().len() > 0 && v@.len() == store.recipes.keys().len()
                && forall|i: int| 0 <= i < v@.len() ==> (#[trigger] v@[i])@ == store.recipes.keys()[i],
            Err(e) => e is RecipesNotFound && store.recipes.keys().len() == 0,
        },
{
    let names = take_recipes_names(store);
    if names.is_empty() {
        Err(Error::RecipesNotFound { msg: String::from_str("No recipes") })
    } else {
        Ok(names)
    }
}

/// Looks a recipe up by name, pairing it with its author's display name
/// when it has an author and that user exists.
pub fn take_recipe(store: &EntityStore, name: String) -> (r: Result<
    (RecipeInfo, Option<String>),
    Error,
>)
    requires
        store.wf(),
    ensures
        match r {
            Ok(p) => store.recipes_deep().contains_key(name@) && p.0@ == store.recipes_deep()[name@]
                && opt_str_view(p.1) == author_name_view(*store, store.recipes_deep()[name@].author_id),
            Err(e) => e is RecipeNotFound && !store.recipes_deep().contains_key(name@),
        },
{
    match store.recipes.get(&name) {
        Some(recipe) => {
            let author_name: Option<String> = match recipe.author_id {
                Some(aid) => get_username_by_index(store, aid),
                None => None,
            };
            Ok((recipe.clone(), author_name))
        },
        None => Err(Error::RecipeNotFound { msg: String::from_str("Recipe not found") }),
    }
}

/// Stores a user-authored recipe, and its image when one is supplied.
///
/// A name collision is rejected (the user path never overwrites, unlike
/// ingestion), the author must be a registered user at write time, and both
/// the recipe and the image must respect their size ceilings.
pub fn add_recipe(store: &mut EntityStore, payload: RecipePayload) -> (r: Result<String, Error>)
    requires
        old(store).wf(),
    ensures
        final(store).wf(),
        final(store).users == old(store).users,
        final(store).counter == old(store).counter,
        store_step(*old(store), *final(store), None),
        recipe_size(payload_recipe_view(payload)) > RECIPE_MAX_BYTES ==> (r is Err
            && final(store).recipes == old(store).recipes
            && final(store).images == old(store).images),
        ({
            let nm = payload.name@;
            let rec = payload_recipe_view(payload);
            let img = ImageV::Url(payload.image@);
            if old(store).recipes_deep().contains_key(nm) {
                &&& r matches Err(e) && e is RecipeAlreadyExists
                &&& final(store).recipes == old(store).recipes
                &&& final(store).images == old(store).images
            } else if !old(store).users_deep().contains_key(payload.author_id) {
                &&& r matches Err(e) && e is UserNotFound
                &&& final(store).recipes == old(store).recipes
                &&& final(store).images == old(store).images
            } else if recipe_size(rec) > RECIPE_MAX_BYTES || (payload.image@.len() > 0
                && image_size(img) > IMAGE_MAX_BYTES) {
                &&& r matches Err(e) && e is EntityTooLarge
                &&& final(store).recipes == old(store).recipes
                &&& final(store).images == old(store).images
            } else {
                &&& r matches Ok(_)
                &&& final(store).recipes_deep() =~= old(store).recipes_deep().insert(nm, rec)
                &&& (payload.image@.len() > 0 ==> final(store).images_deep()
                    =~= old(store).images_deep().insert(nm, img))
                &&& (payload.image@.len() == 0 ==> final(store).images == old(store).images)
            }
        }),
{
    if store.recipes.contains_key(&payload.name) {
        proof {
            EntityStore::lemma_content_frame(*old(store), *store);
        }
        return Err(Error::RecipeAlreadyExists {
            msg: String::from_str("Recipe with this title already exists - change the title"),
        });
    }
    if !store.users.contains_key(payload.author_id) {
        proof {
            EntityStore::lemma_content_frame(*old(store), *store);
        }
        return Err(Error::UserNotFound { msg: String::from_str("Author is not a registered user") });
    }
    let RecipePayload {
        name,
        instructions,
        ingredients,
        tags,
        cuisines,
        total_time_in_seconds,
        image,
        author_id,
    } = payload;
    let new_recipe = RecipeInfo::new(
        instructions,
        ingredients,
        tags,
        cuisines,
        total_time_in_seconds,
        false,
        Some(author_id),
    );
    if !recipe_fits(&new_recipe) {
        proof {
            EntityStore::lemma_content_frame(*old(store), *store);
        }
        return Err(Error::EntityTooLarge { msg: String::from_str("Recipe record is too large") });
    }
    if !image.as_str().is_empty() {
        let img = ImageData::Url(image);
        if !image_fits(&img) {
            proof {
                EntityStore::lemma_content_frame(*old(store), *store);
            }
            return Err(Error::EntityTooLarge { msg: String::from_str("Image is too large") });
        }
        store.recipes.insert(name.clone(), new_recipe);
        store.images.insert(name, img);
    } else {
        store.recipes.insert(name, new_recipe);
    }
    proof {
        EntityStore::lemma_content_frame(*old(store), *store);
        assert(store.recipes_deep() =~= old(store).recipes_deep().insert(
            payload.name@,
            payload_recipe_view(payload),
        ));
        if payload.image@.len() > 0 {
            assert(store.images_deep() =~= old(store).images_deep().insert(
                payload.name@,
                ImageV::Url(payload.image@),
            ));
        }
        assert forall|k: Seq<char>| #[trigger] store.recipes_deep().contains_key(k) implies
            recipe_size(store.recipes_deep()[k]) <= RECIPE_MAX_BYTES by {
            if k != payload.name@ {
                assert(old(store).recipes_deep().contains_key(k));
            }
        }
        assert forall|k: Seq<char>| #[trigger] store.images_deep().contains_key(k) implies
            image_size(store.images_deep()[k]) <= IMAGE_MAX_BYTES by {
            if k != payload.name@ || payload.image@.len() == 0 {
                assert(old(store).images_deep().contains_key(k));
            }
        }
    }
    Ok(String::from_str("Recipe added successfully"))
}

/// Whether `caller` may delete the recipe stored under `nm`: a recipe with
/// an author is deletable only by that author's identity; a curated recipe
/// (no author) is not ownership-gated.
pub open spec fn delete_authorized(s: EntityStore, caller: Seq<u8>, nm: Seq<char>) -> bool {
    match s.recipes_deep()[nm].author_id {
        None => true,
        Some(aid) => s.users_deep().contains_key(aid) && s.users_deep()[aid].id == caller,
    }
}

/// Deletes a recipe and its image.  Deleting a user-authored recipe takes
/// its owner's identity; curated recipes are not gated.
pub fn delete_recipe(store: &mut EntityStore, caller: &PrincipalId, name: String) -> (r: Result<
    String,
    Error,
>)
    requires
        old(store).wf(),
    ensures
        final(store).wf(),
        final(store).users == old(store).users,
        final(store).counter == old(store).counter,
        store_step(*old(store), *final(store), None),
        ({
            let nm = name@;
            if !old(store).recipes_deep().contains_key(nm) {
                &&& r matches Err(e) && e is RecipeNotFound
                &&& final(store).recipes == old(store).recipes
                &&& final(store).images == old(store).images
            } else if !delete_authorized(*old(store), caller@, nm) {
                &&& r matches Err(e) && e is CallerNotAuthorized
                &&& final(store).recipes == old(store).recipes
                &&& final(store).images == old(store).images
            } else {
                &&& r matches Ok(_)
                &&& final(store).recipes_deep() =~= old(store).recipes_deep().remove(nm)
                &&& final(store).images_deep() =~= old(store).images_deep().remove(nm)
            }
        }),
{
    let author_id: Option<u64> = match store.recipes.get(&name) {
        Some(recipe) => recipe.author_id,
        None => {
            proof {
                EntityStore::lemma_content_frame(*old(store), *store);
            }
            return Err(Error::RecipeNotFound { msg: String::from_str("Recipe not found") });
        },
    };
    if let Some(aid) = author_id {
        let authorized = match store.users.get(aid) {
            Some(owner) => owner.id.eq_principal(caller),
            None => false,
        };
        if !authorized {
            proof {
                EntityStore::lemma_content_frame(*old(store), *store);
            }
            return Err(Error::CallerNotAuthorized {
                msg: String::from_str("The caller is not authorized"),
            });
        }
    }
    store.recipes.remove(&name);
    store.images.remove(&name);
    proof {
        EntityStore::lemma_content_frame(*old(store), *store);
        assert(store.recipes_deep() =~= old(store).recipes_deep().remove(name@));
        assert(store.images_deep() =~= old(store).images_deep().remove(name@));
        assert forall|k: Seq<char>| #[trigger] store.recipes_deep().contains_key(k) implies
            recipe_size(store.recipes_deep()[k]) <= RECIPE_MAX_BYTES by {
            assert(old(store).recipes_deep().contains_key(k));
        }
        assert forall|k: Seq<char>| #[trigger] store.images_deep().contains_key(k) implies
            image_size(store.images_deep()[k]) <= IMAGE_MAX_BYTES by {
            assert(old(store).images_deep().contains_key(k));
        }
    }
    Ok(String::from_str("Recipe deleted successfully"))
}

/// Uniqueness: the store never holds two recipes under one name — one
/// entry per name, whatever sequence of operations built the store — and
/// `add_recipe`'s contract refuses the second of two colliding submissions.
pub proof fn lemma_recipe_name_uniqueness(s: EntityStore)
    requires
        s.wf(),
    ensures
        forall|i: int, j: int|
            0 <= i < j < s.recipes.keys().len() ==> s.recipes.keys()[i] != s.recipes.keys()[j],
{
    assert forall|i: int, j: int|
        0 <= i < j < s.recipes.keys().len() implies s.recipes.keys()[i]
        != s.recipes.keys()[j] by {
        assert(s.recipes.entries@[i].0@ != s.recipes.entries@[j].0@);
    }
}

/// Whether the recipe stored under `k` is owned by the user at `author_id`.
pub open spec fn owns_recipe(s: EntityStore, k: Seq<char>, author_id: u64) -> bool {
    s.recipes_deep().contains_key(k) && s.recipes_deep()[k].author_id == Some(author_id)
}

/// The names of the recipes owned by the user at `author_id`.
pub open spec fn owned_recipe_keys(s: EntityStore, author_id: u64) -> Set<Seq<char>> {
    Set::new(|k: Seq<char>| owns_recipe(s, k, author_id))
}

/// Whether `k` is among the first `t` collected key names.
spec fn removed_prefix(ks: Seq<String>, t: int, k: Seq<char>) -> bool {
    exists|s: int| 0 <= s < t && ks[s]@ == k
}

/// Cascade deletion: removes every recipe owned by the user at `author_id`,
/// and the image stored under each removed recipe's name, atomically with
/// respect to the call.  No other user's recipes or images are touched.
pub fn delete_recipes_and_images_by_author(store: &mut EntityStore, author_id: u64)
    requires
        old(store).wf(),
    ensures
        final(store).wf(),
        final(store).users == old(store).users,
        final(store).counter == old(store).counter,
        store_step(*old(store), *final(store), None),
        final(store).recipes_deep() =~= old(store).recipes_deep().remove_keys(
            owned_recipe_keys(*old(store), author_id),
        ),
        final(store).images_deep() =~= old(store).images_deep().remove_keys(
            owned_recipe_keys(*old(store), author_id),
        ),
{
    let ghost s0 = *store;
    let n = store.recipes.len();
    let mut keys_to_remove: Vec<String> = Vec::new();
    let mut j: usize = 0;
    while j < n
        invariant
            0 <= j <= n,
            *store == s0,
            s0.wf(),
            n == s0.recipes.keys().len(),
            forall|t: int|
                0 <= t < keys_to_remove@.len() ==> owns_recipe(
                    s0,
                    (#[trigger] keys_to_remove@[t])@,
                    author_id,
                ),
            forall|i: int|
                0 <= i < j && owns_recipe(s0, #[trigger] s0.recipes.keys()[i], author_id)
                    ==> removed_prefix(
                    keys_to_remove@,
                    keys_to_remove@.len() as int,
                    s0.recipes.keys()[i],
                ),
        decreases n - j,
    {
        let rec = store.recipes.value_at(j);
        proof {
            assert(s0.recipes_deep()[s0.recipes.keys()[j as int]] == rec@);
        }
        let is_owned = match rec.author_id {
            Some(a) => a == author_id,
            None => false,
        };
        if is_owned {
            let ghost ks_pre = keys_to_remove@;
            keys_to_remove.push(store.recipes.key_at(j).clone());
            proof {
                let ghost ksn = keys_to_remove@;
                assert(ksn[ksn.len() - 1]@ == s0.recipes.keys()[j as int]);
                assert forall|i: int|
                    0 <= i < j + 1 && owns_recipe(s0, #[trigger] s0.recipes.keys()[i], author_id)
                        implies removed_prefix(ksn, ksn.len() as int, s0.recipes.keys()[i]) by {
                    let kk = s0.recipes.keys()[i];
                    if i < j {
                        let s = choose|s: int| 0 <= s < ks_pre.len() && ks_pre[s]@ == kk;
                        assert(ksn[s]@ == kk);
                        assert(removed_prefix(ksn, ksn.len() as int, kk));
                    } else {
                        assert(ksn[ksn.len() - 1]@ == kk);
                        assert(removed_prefix(ksn, ksn.len() as int, kk));
                    }
                }
            }
        } else {
            proof {
                assert(!owns_recipe(s0, s0.recipes.keys()[j as int], author_id));
            }
        }
        j += 1;
    }
    let ghost ks = keys_to_remove@;
    let m = keys_to_remove.len();
    let mut t: usize = 0;
    while t < m
        invariant
            0 <= t <= m,
            m == ks.len(),
            ks == keys_to_remove@,
            s0.wf(),
            store.users == s0.users,
            store.counter == s0.counter,
            store.recipes.wf(),
            store.images.wf(),
            forall|tt: int| 0 <= tt < ks.len() ==> owns_recipe(s0, (#[trigger] ks[tt])@, author_id),
            forall|k: Seq<char>| #[trigger] store.recipes_deep().contains_key(k)
                ==> s0.recipes_deep().contains_key(k) && store.recipes_deep()[k]
                == s0.recipes_deep()[k] && !removed_prefix(ks, t as int, k),
            forall|k: Seq<char>|
                s0.recipes_deep().contains_key(k) && !removed_prefix(ks, t as int, k)
                    ==> #[trigger] store.recipes_deep().contains_key(k),
            forall|k: Seq<char>| #[trigger] store.images_deep().contains_key(k)
                ==> s0.images_deep().contains_key(k) && store.images_deep()[k]
                == s0.images_deep()[k] && !removed_prefix(ks, t as int, k),
            forall|k: Seq<char>|
                s0.images_deep().contains_key(k) && !removed_prefix(ks, t as int, k)
                    ==> #[trigger] store.images_deep().contains_key(k),
        decreases m - t,
    {
        let key = &keys_to_remove[t];
        let ghost pre = *store;
        store.recipes.remove(key);
        store.images.remove(key);
        proof {
            assert(key@ == ks[t as int]@);
            assert(store.recipes_deep() =~= pre.recipes_deep().remove(key@));
            assert(store.images_deep() =~= pre.images_deep().remove(key@));
            assert forall|k: Seq<char>|
                removed_prefix(ks, t + 1, k) <==> (removed_prefix(ks, t as int, k) || ks[t as int]@
                    == k) by {
                if removed_prefix(ks, t + 1, k) {
                    let s = choose|s: int| 0 <= s < t + 1 && ks[s]@ == k;
                    if s < t {
                        assert(removed_prefix(ks, t as int, k));
                    }
                }
                if removed_prefix(ks, t as int, k) {
                    let s = choose|s: int| 0 <= s < t && ks[s]@ == k;
                    assert(0 <= s < t + 1 && ks[s]@ == k);
                }
                if ks[t as int]@ == k {
                    assert(0 <= t < t + 1 && ks[t as int]@ == k);
                }
            }
            assert forall|k: Seq<char>| #[trigger] store.recipes_deep().contains_key(k) implies
                s0.recipes_deep().contains_key(k) && store.recipes_deep()[k]
                == s0.recipes_deep()[k] && !removed_prefix(ks, t + 1, k) by {
                assert(pre.recipes_deep().contains_key(k));
                assert(k != key@);
            }
            assert forall|k: Seq<char>|
                s0.recipes_deep().contains_key(k) && !removed_prefix(ks, t + 1, k) implies
                #[trigger] store.recipes_deep().contains_key(k) by {
                assert(!removed_prefix(ks, t as int, k));
                assert(pre.recipes_deep().contains_key(k));
                assert(k != ks[t as int]@);
            }
            assert forall|k: Seq<char>| #[trigger] store.images_deep().contains_key(k) implies
                s0.images_deep().contains_key(k) && store.images_deep()[k]
                == s0.images_deep()[k] && !removed_prefix(ks, t + 1, k) by {
                assert(pre.images_deep().contains_key(k));
                assert(k != key@);
            }
            assert forall|k: Seq<char>|
                s0.images_deep().contains_key(k) && !removed_prefix(ks, t + 1, k) implies
                #[trigger] store.images_deep().contains_key(k) by {
                assert(!removed_prefix(ks, t as int, k));
                assert(pre.images_deep().contains_key(k));
                assert(k != ks[t as int]@);
            }
        }
        t += 1;
    }
    proof {
        EntityStore::lemma_content_frame(s0, *store);
        s0.recipes.lemma_keys_in_map();
        assert forall|k: Seq<char>|
            removed_prefix(ks, m as int, k) <==> owns_recipe(s0, k, author_id) by {
            if removed_prefix(ks, m as int, k) {
                let s = choose|s: int| 0 <= s < m && ks[s]@ == k;
                assert(owns_recipe(s0, ks[s]@, author_id));
            }
            if owns_recipe(s0, k, author_id) {
                assert(s0.recipes.view().contains_key(k));
                assert(s0.recipes.keys().contains(k));
                let i = choose|i: int| 0 <= i < s0.recipes.keys().len() && s0.recipes.keys()[i] == k;
                assert(owns_recipe(s0, s0.recipes.keys()[i], author_id));
                assert(removed_prefix(ks, ks.len() as int, s0.recipes.keys()[i]));
            }
        }
        assert(store.recipes_deep() =~= s0.recipes_deep().remove_keys(
            owned_recipe_keys(s0, author_id),
        ));
        assert(store.images_deep() =~= s0.images_deep().remove_keys(
            owned_recipe_keys(s0, author_id),
        ));
        assert(store.wf()) by {
            assert forall|k: Seq<char>| #[trigger] store.recipes_deep().contains_key(k) implies
                recipe_size(store.recipes_deep()[k]) <= RECIPE_MAX_BYTES by {
                assert(s0.recipes_deep().contains_key(k));
            }
            assert forall|k: Seq<char>| #[trigger] store.images_deep().contains_key(k) implies
                image_size(store.images_deep()[k]) <= IMAGE_MAX_BYTES by {
                assert(s0.images_deep().contains_key(k));
            }
        }
    }
}

/// Whether one of the tags is exactly `t`.
fn tags_contain(tags: &Vec<String>, t: &String) -> (r: bool)
    ensures
        r == tags.deep_view().contains(t@),
{
    let n = tags.len();
    let mut i: usize = 0;
    while i < n
        invariant
            0 <= i <= n,
            n == tags@.len(),
            forall|j: int| 0 <= j < i ==> tags.deep_view()[j] != t@,
        decreases n - i,
    {
        if tags[i].eq(t) {
            proof {
                assert(tags.deep_view()[i as int] == t@);
            }
            return true;
        }
        i += 1;
    }
    proof {
        assert(!tags.deep_view().contains(t@)) by {
            if tags.deep_view().contains(t@) {
                let j = choose|j: int| 0 <= j < tags.deep_view().len() && tags.deep_view()[j] == t@;
                assert(tags.deep_view()[j] != t@);
            }
        }
    }
    false
}

/// Whether a recipe belongs in the listing asked for by `t`: the literal
/// `Popular` selects the curated flag, any other string selects recipes
/// carrying it as a tag.
pub open spec fn recipe_matches_type(r: RecipeV, t: Seq<char>) -> bool {
    if t == "Popular"@ {
        r.popular
    } else {
        r.tags.contains(t)
    }
}

/// The selection predicate of `take_recipes_of_specific_type` over stored
/// recipe names.
pub open spec fn type_pred(s: EntityStore, t: Seq<char>) -> spec_fn(Seq<char>) -> bool {
    |k: Seq<char>| recipe_matches_type(s.recipes_deep()[k], t)
}

/// The selection predicate of `take_recipes_by_author`.
pub open spec fn author_pred(s: EntityStore, author_id: u64) -> spec_fn(Seq<char>) -> bool {
    |k: Seq<char>| s.recipes_deep()[k].author_id == Some(author_id)
}

/// The selection predicate of `take_user_recipes_with_author_names`: any
/// user-authored recipe.
pub open spec fn authored_pred(s: EntityStore) -> spec_fn(Seq<char>) -> bool {
    |k: Seq<char>| s.recipes_deep()[k].author_id is Some
}

/// The brief entries of the recipes selected by `pred`, in storage order:
/// one entry per selected name, carrying that recipe's data and its author's
/// display name.
pub open spec fn briefs_of_selected(
    s: EntityStore,
    pred: spec_fn(Seq<char>) -> bool,
    r: Seq<RecipeBriefResponse>,
) -> bool {
    let sel = s.recipes.keys().filter(pred);
    &&& r.len() == sel.len()
    &&& forall|i: int|
        0 <= i < sel.len() ==> is_brief_of(
            r[i],
            #[trigger] sel[i],
            s.recipes_deep()[sel[i]],
            author_name_view(s, s.recipes_deep()[sel[i]].author_id),
        )
}

/// Lists, as brief entries, the curated recipes (`Popular`) or the recipes
/// carrying the given tag.
pub fn take_recipes_of_specific_type(store: &EntityStore, recipes_type: String) -> (r: Vec<
    RecipeBriefResponse,
>)
    requires
        store.wf(),
    ensures
        briefs_of_selected(*store, type_pred(*store, recipes_type@), r@),
{
    let ghost pred = type_pred(*store, recipes_type@);
    let popular_mode = str_eq(recipes_type.as_str(), "Popular");
    let n = store.recipes.len();
    let mut out: Vec<RecipeBriefResponse> = Vec::new();
    let mut j: usize = 0;
    while j < n
        invariant
            0 <= j <= n,
            n == store.recipes.keys().len(),
            store.wf(),
            popular_mode == (recipes_type@ == "Popular"@),
            pred == type_pred(*store, recipes_type@),
            briefs_of_selected_upto(*store, pred, out@, j as int),
        decreases n - j,
    {
        let key = store.recipes.key_at(j);
        let rec = store.recipes.value_at(j);
        let matched = if popular_mode {
            rec.popular
        } else {
            tags_contain(&rec.tags, &recipes_type)
        };
        proof {
            assert(store.recipes_deep()[store.recipes.keys()[j as int]] == rec@);
            assert(matched == pred(store.recipes.keys()[j as int]));
        }
        if matched {
            let author_name: Option<String> = match rec.author_id {
                Some(aid) => get_username_by_index(store, aid),
                None => None,
            };
            let brief = transform_recipe_to_brief_response(key.clone(), rec.clone(), author_name);
            out.push(brief);
        }
        proof {
            lemma_briefs_step(*store, pred, out@, j as int);
        }
        j += 1;
    }
    proof {
        assert(store.recipes.keys().take(n as int) =~= store.recipes.keys());
    }
    out
}

/// Lists, as brief entries, every user-authored recipe.
pub fn take_user_recipes_with_author_names(store: &EntityStore) -> (r: Vec<RecipeBriefResponse>)
    requires
        store.wf(),
    ensures
        briefs_of_selected(*store, authored_pred(*store), r@),
{
    let ghost pred = authored_pred(*store);
    let n = store.recipes.len();
    let mut out: Vec<RecipeBriefResponse> = Vec::new();
    let mut j: usize = 0;
    while j < n
        invariant
            0 <= j <= n,
            n == store.recipes.keys().len(),
            store.wf(),
            pred == authored_pred(*store),
            briefs_of_selected_upto(*store, pred, out@, j as int),
        decreases n - j,
    {
        let key = store.recipes.key_at(j);
        let rec = store.recipes.value_at(j);
        proof {
            assert(store.recipes_deep()[store.recipes.keys()[j as int]] == rec@);
        }
        if let Some(aid) = rec.author_id {
            let author_name = get_username_by_index(store, aid);
            let brief = transform_recipe_to_brief_response(key.clone(), rec.clone(), author_name);
            out.push(brief);
        }
        proof {
            lemma_briefs_step(*store, pred, out@, j as int);
        }
        j += 1;
    }
    proof {
        assert(store.recipes.keys().take(n as int) =~= store.recipes.keys());
    }
    out
}

/// Lists, as brief entries, the recipes owned by the user at `author_id`.
pub fn take_recipes_by_author(store: &EntityStore, author_id: u64) -> (r: Vec<RecipeBriefResponse>)
    requires
        store.wf(),
    ensures
        briefs_of_selected(*store, author_pred(*store, author_id), r@),
{
    let ghost pred = author_pred(*store, author_id);
    let n = store.recipes.len();
    let mut out: Vec<RecipeBriefResponse> = Vec::new();
    let mut j: usize = 0;
    while j < n
        invariant
            0 <= j <= n,
            n == store.recipes.keys().len(),
            store.wf(),
            pred == author_pred(*store, author_id),
            briefs_of_selected_upto(*store, pred, out@, j as int),
        decreases n - j,
    {
        let key = store.recipes.key_at(j);
        let rec = store.recipes.value_at(j);
        proof {
            assert(store.recipes_deep()[store.recipes.keys()[j as int]] == rec@);
        }
        let matched = match rec.author_id {
            Some(a) => a == author_id,
            None => false,
        };
        if matched {
            let author_name = get_username_by_index(store, author_id);
            let brief = transform_recipe_to_brief_response(key.clone(), rec.clone(), author_name);
            out.push(brief);
        }
        proof {
            lemma_briefs_step(*store, pred, out@, j as int);
        }
        j += 1;
    }
    proof {
        assert(store.recipes.keys().take(n as int) =~= store.recipes.keys());
    }
    out
}

/// `briefs_of_selected`, restricted to the first `j` stored names.
pub open spec fn briefs_of_selected_upto(
    s: EntityStore,
    pred: spec_fn(Seq<char>) -> bool,
    r: Seq<RecipeBriefResponse>,
    j: int,
) -> bool {
    let sel = s.recipes.keys().take(j).filter(pred);
    &&& r.len() == sel.len()
    &&& forall|i: int|
        0 <= i < sel.len() ==> is_brief_of(
            r[i],
            #[trigger] sel[i],
            s.recipes_deep()[sel[i]],
            author_name_view(s, s.recipes_deep()[sel[i]].author_id),
        )
}

/// One scan step of a brief listing: if the entries so far are the briefs of
/// the names selected among the first `j`, and the entries now also reflect
/// name `j` when selected, they are the briefs of the selection among the
/// first `j + 1`.
proof fn lemma_briefs_step(
    s: EntityStore,
    pred: spec_fn(Seq<char>) -> bool,
    r: Seq<RecipeBriefResponse>,
    j: int,
)
    requires
        0 <= j < s.recipes.keys().len(),
        if pred(s.recipes.keys()[j]) {
            r.len() > 0 && briefs_of_selected_upto(s, pred, r.drop_last(), j) && is_brief_of(
                r.last(),
                s.recipes.keys()[j],
                s.recipes_deep()[s.recipes.keys()[j]],
                author_name_view(s, s.recipes_deep()[s.recipes.keys()[j]].author_id),
            )
        } else {
            briefs_of_selected_upto(s, pred, r, j)
        },
    ensures
        briefs_of_selected_upto(s, pred, r, j + 1),
{
    let keys = s.recipes.keys();
    let kj = keys[j];
    assert(keys.take(j + 1) =~= keys.take(j) + seq![kj]);
    Seq::filter_distributes_over_add(keys.take(j), seq![kj], pred);
    reveal_with_fuel(Seq::filter, 3);
    if pred(kj) {
        assert(seq![kj].filter(pred) =~= seq![kj]);
        assert(keys.take(j + 1).filter(pred) =~= keys.take(j).filter(pred).push(kj));
        let sel = keys.take(j + 1).filter(pred);
        assert forall|i: int| 0 <= i < sel.len() implies is_brief_of(
            r[i],
            #[trigger] sel[i],
            s.recipes_deep()[sel[i]],
            author_name_view(s, s.recipes_deep()[sel[i]].author_id),
        ) by {
            if i < sel.len() - 1 {
                assert(sel[i] == keys.take(j).filter(pred)[i]);
                assert(r.drop_last()[i] == r[i]);
            } else {
                assert(sel[i] == kj);
                assert(r[i] == r.last());
            }
        }
    } else {
        assert(seq![kj].filter(pred) =~= Seq::<Seq<char>>::empty());
        assert(keys.take(j + 1).filter(pred) =~= keys.take(j).filter(pred));
    }
}

/// Cascade integrity: after removing a user's recipes, no recipe or image
/// under a name that user owned remains, and every other entry is exactly
/// what it was.
pub proof fn lemma_cascade_integrity(pre: EntityStore, post: EntityStore, author_id: u64)
    requires
        post.recipes_deep() == pre.recipes_deep().remove_keys(owned_recipe_keys(pre, author_id)),
        post.images_deep() == pre.images_deep().remove_keys(owned_recipe_keys(pre, author_id)),
    ensures
        forall|k: Seq<char>|
            owns_recipe(pre, k, author_id) ==> !post.recipes_deep().contains_key(k)
                && !post.images_deep().contains_key(k),
        forall|k: Seq<char>| #[trigger] pre.recipes_deep().contains_key(k)
            && !owns_recipe(pre, k, author_id) ==> post.recipes_deep().contains_key(k)
            && post.recipes_deep()[k] == pre.recipes_deep()[k],
        forall|k: Seq<char>| #[trigger] pre.images_deep().contains_key(k)
            && !owns_recipe(pre, k, author_id) ==> post.images_deep().contains_key(k)
            && post.images_deep()[k] == pre.images_deep()[k],
{
    assert forall|k: Seq<char>|
        owns_recipe(pre, k, author_id) implies !post.recipes_deep().contains_key(k)
        && !post.images_deep().contains_key(k) by {
        assert(owned_recipe_keys(pre, author_id).contains(k));
    }
}

} // verus!
