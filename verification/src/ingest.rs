//! Ingestion of curated provider records.
//!
//! A provider response decodes into a list of records; each record, paired
//! with the outcome of its image fetch, is submitted to the store
//! independently.  Unlike the user-authored path, ingestion overwrites an
//! existing recipe of the same name unconditionally, which makes ingesting
//! the same payload twice leave the store unchanged.  A record whose recipe
//! or image would exceed its size ceiling is skipped, and the rest of the
//! payload is still ingested.

use vstd::prelude::*;
use crate::Error;
use crate::json::JsonValue;
use crate::json::json_field;
use crate::json::json_get;
use crate::json::strings_of;
use crate::json::strings_of_array;
use crate::jsonio::json_of;
use crate::jsonio::parse_json;
use crate::encoding::recipe_size;
use crate::encoding::image_size;
use crate::encoding::recipe_fits;
use crate::encoding::image_fits;
use crate::encoding::RECIPE_MAX_BYTES;
use crate::encoding::IMAGE_MAX_BYTES;
use crate::images::ImageData;
use crate::images::ImageV;
use crate::recipes::RecipeInfo;
use crate::recipes::RecipeV;
use crate::store::EntityStore;
use crate::util::clone_string_vec;

verus! {

/// One decoded provider record: a recipe's fields as the feed carries them.
pub struct RecipeInside {
    pub name: String,
    pub main_image: String,
    pub instructions: Vec<String>,
    pub ingredient_lines: Vec<String>,
    pub cuisines: Option<Vec<String>>,
    pub tags: Vec<String>,
    pub total_time_in_seconds: u16,
}

/// One ingredient object of the provider's feed, which carries the
/// ingredient line as a named field.
pub struct Ingredient {
    pub name: String,
}

/// One edge of the provider's response list.
pub struct RecipeSingleItem {
    pub node: RecipeInside,
}

/// The mathematical value of a [`RecipeInside`].
#[verifier::ext_equal]
pub struct RecipeInsideV {
    pub name: Seq<char>,
    pub main_image: Seq<char>,
    pub instructions: Seq<Seq<char>>,
    pub ingredient_lines: Seq<Seq<char>>,
    pub cuisines: Option<Seq<Seq<char>>>,
    pub tags: Seq<Seq<char>>,
    pub total_time_in_seconds: u16,
}

impl View for RecipeInside {
    type V = RecipeInsideV;

    open spec fn view(&self) -> RecipeInsideV {
        RecipeInsideV {
            name: self.name@,
            main_image: self.main_image@,
            instructions: self.instructions.deep_view(),
            ingredient_lines: self.ingredient_lines.deep_view(),
            cuisines: match self.cuisines {
                Some(c) => Some(c.deep_view()),
                None => None,
            },
            tags: self.tags.deep_view(),
            total_time_in_seconds: self.total_time_in_seconds,
        }
    }
}

/// The recipe record a provider record is stored as: owned by nobody,
/// curated exactly when the payload was the curated feed.
pub open spec fn record_recipe_view(rv: RecipeInsideV, popular: bool) -> RecipeV {
    RecipeV {
        instructions: rv.instructions,
        ingredients: rv.ingredient_lines,
        tags: rv.tags,
        cuisines: match rv.cuisines {
            Some(c) => c,
            None => Seq::empty(),
        },
        total_time_in_seconds: rv.total_time_in_seconds,
        popular,
        author_id: None,
        likes: Seq::empty(),
    }
}

/// The image value of a fetch outcome.
pub open spec fn opt_image_view(img: Option<ImageData>) -> Option<ImageV> {
    match img {
        Some(i) => Some(i@),
        None => None,
    }
}

/// Whether a record is stored at all: its recipe, and its image when one
/// was fetched, must respect their size ceilings.
pub open spec fn record_selected(rv: RecipeInsideV, img: Option<ImageV>, popular: bool) -> bool {
    &&& recipe_size(record_recipe_view(rv, popular)) <= RECIPE_MAX_BYTES
    &&& match img {
        Some(i) => image_size(i) <= IMAGE_MAX_BYTES,
        None => true,
    }
}

/// A sequence of conditional overwrites applied to a map: each triple
/// carries a key, a value, and whether the write happens.
pub open spec fn apply_sel<V>(m: Map<Seq<char>, V>, xs: Seq<(Seq<char>, V, bool)>) -> Map<
    Seq<char>,
    V,
>
    decreases xs.len(),
{
    if xs.len() == 0 {
        m
    } else {
        let prev = apply_sel(m, xs.drop_last());
        if xs.last().2 {
            prev.insert(xs.last().0, xs.last().1)
        } else {
            prev
        }
    }
}

/// Applying conditional overwrites equals overlaying their net effect: the
/// result is the base map, overridden by what the same overwrites make of
/// the empty map.
pub proof fn lemma_apply_sel_union<V>(m: Map<Seq<char>, V>, xs: Seq<(Seq<char>, V, bool)>)
    ensures
        apply_sel(m, xs) =~= m.union_prefer_right(
            apply_sel(Map::<Seq<char>, V>::empty(), xs),
        ),
    decreases xs.len(),
{
    if xs.len() > 0 {
        lemma_apply_sel_union(m, xs.drop_last());
    }
}

/// Idempotent ingestion, map level: a list of conditional overwrites whose
/// keys, values, and conditions do not depend on the map leaves a map it
/// has already been applied to unchanged.
pub proof fn lemma_apply_sel_idempotent<V>(m: Map<Seq<char>, V>, xs: Seq<(Seq<char>, V, bool)>)
    ensures
        apply_sel(apply_sel(m, xs), xs) =~= apply_sel(m, xs),
{
    lemma_apply_sel_union(m, xs);
    lemma_apply_sel_union(apply_sel(m, xs), xs);
}

/// The conditional recipe overwrites a record list performs.
pub open spec fn recipe_upserts(
    items: Seq<(RecipeInsideV, Option<ImageV>)>,
    popular: bool,
) -> Seq<(Seq<char>, RecipeV, bool)> {
    items.map_values(
        |p: (RecipeInsideV, Option<ImageV>)|
            (p.0.name, record_recipe_view(p.0, popular), record_selected(p.0, p.1, popular)),
    )
}

/// The conditional image overwrites a record list performs: only records
/// that are stored and came with a fetched image write one.
pub open spec fn image_upserts(
    items: Seq<(RecipeInsideV, Option<ImageV>)>,
    popular: bool,
) -> Seq<(Seq<char>, ImageV, bool)> {
    items.map_values(
        |p: (RecipeInsideV, Option<ImageV>)|
            (
                p.0.name,
                match p.1 {
                    Some(i) => i,
                    None => arbitrary(),
                },
                record_selected(p.0, p.1, popular) && p.1 is Some,
            ),
    )
}

/// The mathematical value of a fetched record list.
pub open spec fn items_view(s: Seq<(RecipeSingleItem, Option<ImageData>)>) -> Seq<
    (RecipeInsideV, Option<ImageV>),
> {
    s.map_values(|p: (RecipeSingleItem, Option<ImageData>)| (p.0.node@, opt_image_view(p.1)))
}

/// Submits one fetched record to the store.  The write overwrites any
/// recipe already stored under the record's name — ingestion is
/// idempotent-by-overwrite — and is skipped entirely when the recipe or the
/// fetched image exceeds its size ceiling.  Returns whether the record was
/// stored.
pub fn ingest_record(
    store: &mut EntityStore,
    item: &RecipeSingleItem,
    image: Option<ImageData>,
    popular: bool,
) -> (stored: bool)
    requires
        old(store).wf(),
    ensures
        final(store).wf(),
        final(store).users == old(store).users,
        final(store).counter == old(store).counter,
        crate::store::store_step(*old(store), *final(store), None),
        stored == record_selected(item.node@, opt_image_view(image), popular),
        ({
            let rv = item.node@;
            let img = opt_image_view(image);
            if record_selected(rv, img, popular) {
                &&& final(store).recipes_deep() =~= old(store).recipes_deep().insert(
                    rv.name,
                    record_recipe_view(rv, popular),
                )
                &&& match img {
                    Some(i) => final(store).images_deep() =~= old(store).images_deep().insert(
                        rv.name,
                        i,
                    ),
                    None => final(store).images == old(store).images,
                }
            } else {
                &&& final(store).recipes == old(store).recipes
                &&& final(store).images == old(store).images
            }
        }),
{
    let cuisines: Vec<String> = match &item.node.cuisines {
        Some(c) => clone_string_vec(c),
        None => Vec::new(),
    };
    let new_recipe = RecipeInfo::new(
        clone_string_vec(&item.node.instructions),
        clone_string_vec(&item.node.ingredient_lines),
        clone_string_vec(&item.node.tags),
        cuisines,
        item.node.total_time_in_seconds,
        popular,
        None,
    );
    proof {
        assert(new_recipe@ =~= record_recipe_view(item.node@, popular));
    }
    if !recipe_fits(&new_recipe) {
        proof {
            EntityStore::lemma_content_frame(*old(store), *store);
        }
        return false;
    }
    match image {
        Some(img) => {
            if !image_fits(&img) {
                proof {
                    EntityStore::lemma_content_frame(*old(store), *store);
                }
                return false;
            }
            let ghost iv = img@;
            store.recipes.insert(item.node.name.clone(), new_recipe);
            store.images.insert(item.node.name.clone(), img);
            proof {
                EntityStore::lemma_content_frame(*old(store), *store);
                assert(store.recipes_deep() =~= old(store).recipes_deep().insert(
                    item.node@.name,
                    record_recipe_view(item.node@, popular),
                ));
                assert(store.images_deep() =~= old(store).images_deep().insert(item.node@.name, iv));
                assert forall|k: Seq<char>| #[trigger] store.recipes_deep().contains_key(k) implies
                    recipe_size(store.recipes_deep()[k]) <= RECIPE_MAX_BYTES by {
                    if k != item.node@.name {
                        assert(old(store).recipes_deep().contains_key(k));
                    }
                }
                assert forall|k: Seq<char>| #[trigger] store.images_deep().contains_key(k) implies
                    image_size(store.images_deep()[k]) <= IMAGE_MAX_BYTES by {
                    if k != item.node@.name {
                        assert(old(store).images_deep().contains_key(k));
                    }
                }
            }
            true
        },
        None => {
            store.recipes.insert(item.node.name.clone(), new_recipe);
            proof {
                EntityStore::lemma_content_frame(*old(store), *store);
                assert(store.recipes_deep() =~= old(store).recipes_deep().insert(
                    item.node@.name,
                    record_recipe_view(item.node@, popular),
                ));
                assert forall|k: Seq<char>| #[trigger] store.recipes_deep().contains_key(k) implies
                    recipe_size(store.recipes_deep()[k]) <= RECIPE_MAX_BYTES by {
                    if k != item.node@.name {
                        assert(old(store).recipes_deep().contains_key(k));
                    }
                }
            }
            true
        },
    }
}

/// Submits a whole fetched record list to the store, in order.  The store
/// ends up exactly as the list's conditional overwrites dictate.
pub fn ingest_records(
    store: &mut EntityStore,
    items: &Vec<(RecipeSingleItem, Option<ImageData>)>,
    popular: bool,
) -> (stored_count: usize)
    requires
        old(store).wf(),
    ensures
        final(store).wf(),
        final(store).users == old(store).users,
        final(store).counter == old(store).counter,
        crate::store::store_step(*old(store), *final(store), None),
        final(store).recipes_deep() =~= apply_sel(
            old(store).recipes_deep(),
            recipe_upserts(items_view(items@), popular),
        ),
        final(store).images_deep() =~= apply_sel(
            old(store).images_deep(),
            image_upserts(items_view(items@), popular),
        ),
        stored_count <= items@.len(),
{
    let ghost rups = recipe_upserts(items_view(items@), popular);
    let ghost iups = image_upserts(items_view(items@), popular);
    let n = items.len();
    let mut stored_count: usize = 0;
    let mut j: usize = 0;
    while j < n
        invariant
            0 <= j <= n,
            n == items@.len(),
            rups == recipe_upserts(items_view(items@), popular),
            iups == image_upserts(items_view(items@), popular),
            rups.len() == n,
            iups.len() == n,
            store.wf(),
            store.users == old(store).users,
            store.counter == old(store).counter,
            store.recipes_deep() =~= apply_sel(
                old(store).recipes_deep(),
                rups.take(j as int),
            ),
            store.images_deep() =~= apply_sel(
                old(store).images_deep(),
                iups.take(j as int),
            ),
            stored_count <= j,
        decreases n - j,
    {
        let ghost pre = *store;
        let item = &items[j].0;
        let image: Option<ImageData> = match &items[j].1 {
            Some(img) => Some(img.clone()),
            None => None,
        };
        proof {
            assert(items_view(items@)[j as int] == (item.node@, opt_image_view(image)));
        }
        let stored = ingest_record(store, item, image, popular);
        if stored {
            stored_count += 1;
        }
        proof {
            assert(rups.take(j + 1).drop_last() =~= rups.take(j as int));
            assert(iups.take(j + 1).drop_last() =~= iups.take(j as int));
            assert(rups.take(j + 1).last() == rups[j as int]);
            assert(iups.take(j + 1).last() == iups[j as int]);
            assert(store.recipes_deep() =~= apply_sel(old(store).recipes_deep(), rups.take(j + 1)));
            assert(store.images_deep() =~= apply_sel(old(store).images_deep(), iups.take(j + 1)));
        }
        j += 1;
    }
    proof {
        assert(rups.take(n as int) =~= rups);
        assert(iups.take(n as int) =~= iups);
    }
    stored_count
}

/// The character sequences of an optional string list.
pub open spec fn opt_strs_view(o: Option<Vec<String>>) -> Option<Seq<Seq<char>>> {
    match o {
        Some(v) => Some(v.deep_view()),
        None => None,
    }
}

/// Assembles a provider record from its extracted fields.  The name and the
/// image URL are required, and a reported total time must fit the stored
/// width; a record missing them is malformed, which aborts the whole
/// ingestion call.  Every other field defaults: empty lists, no cuisines,
/// zero seconds.
pub fn build_record(
    name: Option<String>,
    main_image: Option<String>,
    instructions: Vec<String>,
    ingredient_lines: Vec<String>,
    cuisines: Option<Vec<String>>,
    tags: Vec<String>,
    total_time: Option<u64>,
) -> (r: Result<RecipeInside, Error>)
    ensures
        match r {
            Ok(rec) => name is Some && main_image is Some && (total_time matches Some(t) ==> t
                <= u16::MAX) && rec@ == (RecipeInsideV {
                name: name->Some_0@,
                main_image: main_image->Some_0@,
                instructions: instructions.deep_view(),
                ingredient_lines: ingredient_lines.deep_view(),
                cuisines: opt_strs_view(cuisines),
                tags: tags.deep_view(),
                total_time_in_seconds: match total_time {
                    Some(t) => t as u16,
                    None => 0u16,
                },
            }),
            Err(e) => e is RecipesNotFound && (name is None || main_image is None || (total_time
                matches Some(t) && t > u16::MAX)),
        },
{
    let name = match name {
        Some(n) => n,
        None => {
            return Err(malformed_payload());
        },
    };
    let main_image = match main_image {
        Some(m) => m,
        None => {
            return Err(malformed_payload());
        },
    };
    let total_time_in_seconds: u16 = match total_time {
        Some(t) => {
            if t > u16::MAX as u64 {
                return Err(malformed_payload());
            }
            t as u16
        },
        None => 0,
    };
    let rec = RecipeInside {
        name,
        main_image,
        instructions,
        ingredient_lines,
        cuisines,
        tags,
        total_time_in_seconds,
    };
    proof {
        assert(rec@ =~= (RecipeInsideV {
            name: rec.name@,
            main_image: rec.main_image@,
            instructions: rec.instructions.deep_view(),
            ingredient_lines: rec.ingredient_lines.deep_view(),
            cuisines: opt_strs_view(rec.cuisines),
            tags: rec.tags.deep_view(),
            total_time_in_seconds: rec.total_time_in_seconds,
        }));
    }
    Ok(rec)
}

/// The error a malformed provider payload aborts with.
fn malformed_payload() -> (e: Error)
    ensures
        e is RecipesNotFound,
{
    Error::RecipesNotFound { msg: String::from_str("Malformed provider payload") }
}

/// The ingredient lines carried by a list of ingredient objects.
pub fn ingredient_names(v: &Vec<Ingredient>) -> (r: Vec<String>)
    ensures
        r@.len() == v@.len(),
        forall|i: int| 0 <= i < v@.len() ==> (#[trigger] r@[i])@ == v@[i].name@,
{
    let n = v.len();
    let mut out: Vec<String> = Vec::new();
    let mut i: usize = 0;
    while i < n
        invariant
            0 <= i <= n,
            n == v@.len(),
            out@.len() == i,
            forall|j: int| 0 <= j < i ==> (#[trigger] out@[j])@ == v@[j].name@,
        decreases n - i,
    {
        out.push(v[i].name.clone());
        i += 1;
    }
    out
}

/// The ingredient lines denoted by a list of ingredient values, each an
/// object carrying a string under `name`; `None` when any element is
/// something else.
pub open spec fn ingredient_lines_of(elems: Seq<JsonValue>) -> Option<Seq<Seq<char>>>
    decreases elems.len(),
{
    if elems.len() == 0 {
        Some(Seq::empty())
    } else {
        match (ingredient_lines_of(elems.drop_last()), json_field(elems.last(), "name"@)) {
            (Some(rest), Some(JsonValue::Str(s))) => Some(rest.push(s@)),
            _ => None,
        }
    }
}

/// A failed ingredient list stays failed when the list grows.
proof fn lemma_ingredient_lines_extend_none(elems: Seq<JsonValue>, i: int)
    requires
        0 <= i <= elems.len(),
        ingredient_lines_of(elems.take(i)) is None,
    ensures
        ingredient_lines_of(elems) is None,
    decreases elems.len() - i,
{
    if i < elems.len() {
        assert(elems.take(i + 1).drop_last() =~= elems.take(i));
        lemma_ingredient_lines_extend_none(elems, i + 1);
    } else {
        assert(elems.take(i) =~= elems);
    }
}

/// The ingredient lines carried by a list of ingredient records.
pub open spec fn ing_names_view(s: Seq<Ingredient>) -> Seq<Seq<char>> {
    s.map_values(|i: Ingredient| i.name@)
}

/// Reads a JSON array of ingredient objects, each carrying a `name` string;
/// fails exactly when some element is not such an object.
fn ingredients_of_array(elems: &Vec<JsonValue>) -> (r: Option<Vec<Ingredient>>)
    ensures
        match r {
            Some(v) => ingredient_lines_of(elems@) == Some(ing_names_view(v@)),
            None => ingredient_lines_of(elems@) is None,
        },
{
    let n = elems.len();
    let mut out: Vec<Ingredient> = Vec::new();
    let mut i: usize = 0;
    proof {
        assert(elems@.take(0) =~= Seq::<JsonValue>::empty());
        assert(ing_names_view(out@) =~= Seq::<Seq<char>>::empty());
    }
    while i < n
        invariant
            0 <= i <= n,
            n == elems@.len(),
            ingredient_lines_of(elems@.take(i as int)) == Some(ing_names_view(out@)),
        decreases n - i,
    {
        proof {
            assert(elems@.take(i + 1).drop_last() =~= elems@.take(i as int));
            assert(elems@.take(i + 1).last() == elems@[i as int]);
        }
        let nm: String = match json_get(&elems[i], "name") {
            Some(v) => match v {
                JsonValue::Str(s) => s.clone(),
                _ => {
                    proof {
                        lemma_ingredient_lines_extend_none(elems@, i + 1);
                    }
                    return None;
                },
            },
            None => {
                proof {
                    lemma_ingredient_lines_extend_none(elems@, i + 1);
                }
                return None;
            },
        };
        proof {
            assert(json_field(elems@[i as int], "name"@) == Some(JsonValue::Str(nm)));
        }
        out.push(Ingredient { name: nm });
        proof {
            assert(ing_names_view(out@) =~= ingredient_lines_of(elems@.take(i + 1))->Some_0);
        }
        i += 1;
    }
    proof {
        assert(elems@.take(n as int) =~= elems@);
    }
    Some(out)
}

/// An optional string-list field: `Some(None)` when absent, the strings
/// when present as an array of strings, `None` when malformed.
pub open spec fn opt_strings_field(j: JsonValue, k: Seq<char>) -> Option<Option<Seq<Seq<char>>>> {
    match json_field(j, k) {
        None => Some(None),
        Some(v) => match v {
            JsonValue::Arr(elems) => match strings_of(elems@) {
                Some(ss) => Some(Some(ss)),
                None => None,
            },
            _ => None,
        },
    }
}

/// An absent optional list reads as empty.
pub open spec fn or_empty(o: Option<Seq<Seq<char>>>) -> Seq<Seq<char>> {
    match o {
        Some(ss) => ss,
        None => Seq::empty(),
    }
}

/// The ingredient lines of a node: the `ingredientLines` strings when that
/// field is there, else the names of the `ingredients` objects, else empty.
pub open spec fn ingredient_lines_field(j: JsonValue) -> Option<Seq<Seq<char>>> {
    match json_field(j, "ingredientLines"@) {
        Some(v) => match v {
            JsonValue::Arr(elems) => strings_of(elems@),
            _ => None,
        },
        None => match json_field(j, "ingredients"@) {
            Some(v) => match v {
                JsonValue::Arr(elems) => ingredient_lines_of(elems@),
                _ => None,
            },
            None => Some(Seq::empty()),
        },
    }
}

/// The total time of a node: zero when absent, the value when it is an
/// unsigned integer that fits the stored width, malformed otherwise.
pub open spec fn time_field(j: JsonValue) -> Option<u16> {
    match json_field(j, "totalTimeInSeconds"@) {
        None => Some(0u16),
        Some(v) => match v {
            JsonValue::Num(t) => if t <= u16::MAX {
                Some(t as u16)
            } else {
                None
            },
            _ => None,
        },
    }
}

/// What one `node` value decodes to: the record, when the name and the
/// image URL are strings, every list field is well-shaped, and a reported
/// total time fits — nothing otherwise.
pub open spec fn node_record(j: JsonValue) -> Option<RecipeInsideV> {
    let name = json_field(j, "name"@);
    let main_image = json_field(j, "mainImage"@);
    let instructions = opt_strings_field(j, "instructions"@);
    let lines = ingredient_lines_field(j);
    let tags = opt_strings_field(j, "tags"@);
    let cuisines = opt_strings_field(j, "cuisines"@);
    let time = time_field(j);
    if (name matches Some(JsonValue::Str(_))) && (main_image matches Some(JsonValue::Str(_)))
        && instructions is Some && lines is Some && tags is Some && cuisines is Some && time
        is Some {
        Some(RecipeInsideV {
            name: name->Some_0->Str_0@,
            main_image: main_image->Some_0->Str_0@,
            instructions: or_empty(instructions->Some_0),
            ingredient_lines: lines->Some_0,
            cuisines: cuisines->Some_0,
            tags: or_empty(tags->Some_0),
            total_time_in_seconds: time->Some_0,
        })
    } else {
        None
    }
}

/// Decodes one record node of the provider's response, exactly as
/// `node_record` says: the shape rules live in that spec function, and the
/// assembled record goes through [`build_record`].
fn decode_node(j: &JsonValue) -> (r: Result<RecipeInside, Error>)
    ensures
        match r {
            Ok(rec) => node_record(*j) == Some(rec@),
            Err(e) => e is RecipesNotFound && node_record(*j) is None,
        },
{
    let name: String = match json_get(j, "name") {
        Some(v) => match v {
            JsonValue::Str(s) => s.clone(),
            _ => {
                return Err(malformed_payload());
            },
        },
        None => {
            return Err(malformed_payload());
        },
    };
    proof {
        assert(json_field(*j, "name"@) == Some(JsonValue::Str(name)));
    }
    let main_image: String = match json_get(j, "mainImage") {
        Some(v) => match v {
            JsonValue::Str(s) => s.clone(),
            _ => {
                return Err(malformed_payload());
            },
        },
        None => {
            return Err(malformed_payload());
        },
    };
    proof {
        assert(json_field(*j, "mainImage"@) == Some(JsonValue::Str(main_image)));
    }
    let instructions: Vec<String> = match json_get(j, "instructions") {
        Some(v) => match v {
            JsonValue::Arr(elems) => match strings_of_array(elems) {
                Some(ss) => ss,
                None => {
                    return Err(malformed_payload());
                },
            },
            _ => {
                return Err(malformed_payload());
            },
        },
        None => Vec::new(),
    };
    proof {
        assert(opt_strings_field(*j, "instructions"@) is Some);
        assert(or_empty(opt_strings_field(*j, "instructions"@)->Some_0)
            =~= instructions.deep_view());
    }
    let ingredient_lines: Vec<String> = match json_get(j, "ingredientLines") {
        Some(v) => match v {
            JsonValue::Arr(elems) => match strings_of_array(elems) {
                Some(ss) => ss,
                None => {
                    return Err(malformed_payload());
                },
            },
            _ => {
                return Err(malformed_payload());
            },
        },
        None => match json_get(j, "ingredients") {
            Some(v) => match v {
                JsonValue::Arr(elems) => match ingredients_of_array(elems) {
                    Some(ings) => {
                        let lines = ingredient_names(&ings);
                        proof {
                            assert(lines.deep_view() =~= ing_names_view(ings@));
                        }
                        lines
                    },
                    None => {
                        return Err(malformed_payload());
                    },
                },
                _ => {
                    return Err(malformed_payload());
                },
            },
            None => Vec::new(),
        },
    };
    proof {
        assert(ingredient_lines_field(*j) matches Some(ls) && ls =~= ingredient_lines.deep_view());
        assert(ingredient_lines_field(*j) == Some(ingredient_lines.deep_view()));
    }
    let tags: Vec<String> = match json_get(j, "tags") {
        Some(v) => match v {
            JsonValue::Arr(elems) => match strings_of_array(elems) {
                Some(ss) => ss,
                None => {
                    return Err(malformed_payload());
                },
            },
            _ => {
                return Err(malformed_payload());
            },
        },
        None => Vec::new(),
    };
    proof {
        assert(opt_strings_field(*j, "tags"@) is Some);
        assert(or_empty(opt_strings_field(*j, "tags"@)->Some_0) =~= tags.deep_view());
    }
    let cuisines: Option<Vec<String>> = match json_get(j, "cuisines") {
        Some(v) => match v {
            JsonValue::Arr(elems) => match strings_of_array(elems) {
                Some(ss) => Some(ss),
                None => {
                    return Err(malformed_payload());
                },
            },
            _ => {
                return Err(malformed_payload());
            },
        },
        None => None,
    };
    proof {
        assert(opt_strings_field(*j, "cuisines"@) == Some(opt_strs_view(cuisines)));
    }
    let total_time: Option<u64> = match json_get(j, "totalTimeInSeconds") {
        Some(v) => match v {
            JsonValue::Num(t) => {
                if *t > 65535u64 {
                    return Err(malformed_payload());
                }
                Some(*t)
            },
            _ => {
                return Err(malformed_payload());
            },
        },
        None => None,
    };
    proof {
        assert(time_field(*j) == Some(
            match total_time {
                Some(t) => t as u16,
                None => 0u16,
            },
        ));
    }
    let ghost gname = name@;
    let ghost gmain = main_image@;
    let ghost ginstr = instructions.deep_view();
    let ghost glines = ingredient_lines.deep_view();
    let ghost gtags = tags.deep_view();
    let ghost gcuis = opt_strs_view(cuisines);
    let ghost gtime = total_time;
    match build_record(
        Some(name),
        Some(main_image),
        instructions,
        ingredient_lines,
        cuisines,
        tags,
        total_time,
    ) {
        Ok(rec) => {
            proof {
                assert(rec@ =~= (RecipeInsideV {
                    name: gname,
                    main_image: gmain,
                    instructions: ginstr,
                    ingredient_lines: glines,
                    cuisines: gcuis,
                    tags: gtags,
                    total_time_in_seconds: match gtime {
                        Some(t) => t as u16,
                        None => 0u16,
                    },
                }));
                assert(node_record(*j) matches Some(nr) && nr =~= rec@);
            }
            Ok(rec)
        },
        // All three reasons build_record can refuse were ruled out above.
        Err(_) => vstd::pervasive::unreached(),
    }
}

/// The record nodes of an `edges` array: each element must carry a
/// decodable record under `node`.
pub open spec fn nodes_of(elems: Seq<JsonValue>) -> Option<Seq<RecipeInsideV>>
    decreases elems.len(),
{
    if elems.len() == 0 {
        Some(Seq::empty())
    } else {
        let head = match json_field(elems.last(), "node"@) {
            Some(nj) => node_record(nj),
            None => None,
        };
        match (nodes_of(elems.drop_last()), head) {
            (Some(rest), Some(rv)) => Some(rest.push(rv)),
            _ => None,
        }
    }
}

/// A failed record list stays failed when the list grows.
proof fn lemma_nodes_of_extend_none(elems: Seq<JsonValue>, i: int)
    requires
        0 <= i <= elems.len(),
        nodes_of(elems.take(i)) is None,
    ensures
        nodes_of(elems) is None,
    decreases elems.len() - i,
{
    if i < elems.len() {
        assert(elems.take(i + 1).drop_last() =~= elems.take(i));
        lemma_nodes_of_extend_none(elems, i + 1);
    } else {
        assert(elems.take(i) =~= elems);
    }
}

/// What a provider payload text decodes to for `kind`: the records under
/// `data.<kind>.edges`, or nothing when the text is not valid JSON or the
/// shape is violated anywhere.
pub open spec fn payload_records(text: Seq<char>, kind: Seq<char>) -> Option<Seq<RecipeInsideV>> {
    match json_of(text) {
        Some(root) => match json_field(root, "data"@) {
            Some(d) => match json_field(d, kind) {
                Some(s) => match json_field(s, "edges"@) {
                    Some(e) => match e {
                        JsonValue::Arr(elems) => nodes_of(elems@),
                        _ => None,
                    },
                    None => None,
                },
                None => None,
            },
            None => None,
        },
        None => None,
    }
}

/// The mathematical values of a decoded record list.
pub open spec fn records_view(items: Seq<RecipeSingleItem>) -> Seq<RecipeInsideV> {
    items.map_values(|it: RecipeSingleItem| it.node@)
}

/// Decodes a provider response into its record list, exactly as
/// `payload_records` says of the text: the payload must hold
/// `data.<kind>.edges`, an array of objects each carrying a decodable
/// record under `node`, and any violation of that shape is fatal for the
/// whole call — decoding yields no partial result.
pub fn decode_payload(text: &str, kind: &str) -> (r: Result<Vec<RecipeSingleItem>, Error>)
    ensures
        match r {
            Ok(items) => payload_records(text@, kind@) == Some(records_view(items@)),
            Err(e) => e is RecipesNotFound && payload_records(text@, kind@) is None,
        },
{
    let json = match parse_json(text) {
        Some(v) => v,
        None => {
            return Err(malformed_payload());
        },
    };
    let data = match json_get(&json, "data") {
        Some(v) => v,
        None => {
            return Err(malformed_payload());
        },
    };
    let scoped = match json_get(data, kind) {
        Some(v) => v,
        None => {
            return Err(malformed_payload());
        },
    };
    let edges = match json_get(scoped, "edges") {
        Some(v) => v,
        None => {
            return Err(malformed_payload());
        },
    };
    let arr: &Vec<JsonValue> = match edges {
        JsonValue::Arr(elems) => elems,
        _ => {
            return Err(malformed_payload());
        },
    };
    proof {
        assert(payload_records(text@, kind@) == nodes_of(arr@));
    }
    let n = arr.len();
    let mut out: Vec<RecipeSingleItem> = Vec::new();
    let mut i: usize = 0;
    proof {
        assert(arr@.take(0) =~= Seq::<JsonValue>::empty());
        assert(records_view(out@) =~= Seq::<RecipeInsideV>::empty());
    }
    while i < n
        invariant
            0 <= i <= n,
            n == arr@.len(),
            payload_records(text@, kind@) == nodes_of(arr@),
            nodes_of(arr@.take(i as int)) == Some(records_view(out@)),
        decreases n - i,
    {
        proof {
            assert(arr@.take(i + 1).drop_last() =~= arr@.take(i as int));
            assert(arr@.take(i + 1).last() == arr@[i as int]);
        }
        let node = match json_get(&arr[i], "node") {
            Some(v) => v,
            None => {
                proof {
                    lemma_nodes_of_extend_none(arr@, i + 1);
                }
                return Err(malformed_payload());
            },
        };
        match decode_node(node) {
            Ok(rec) => {
                out.push(RecipeSingleItem { node: rec });
                proof {
                    assert(records_view(out@) =~= nodes_of(arr@.take(i + 1))->Some_0);
                }
            },
            Err(e) => {
                proof {
                    lemma_nodes_of_extend_none(arr@, i + 1);
                }
                return Err(e);
            },
        }
        i += 1;
    }
    proof {
        assert(arr@.take(n as int) =~= arr@);
    }
    Ok(out)
}

/// Idempotent ingestion: running the same fetched record list through the
/// store twice leaves exactly the state the first run produced — the same
/// recipe names, the same field values, the same images.
pub proof fn lemma_ingest_idempotent(
    recipes: Map<Seq<char>, RecipeV>,
    images: Map<Seq<char>, ImageV>,
    items: Seq<(RecipeInsideV, Option<ImageV>)>,
    popular: bool,
)
    ensures
        apply_sel(apply_sel(recipes, recipe_upserts(items, popular)), recipe_upserts(items, popular))
            =~= apply_sel(recipes, recipe_upserts(items, popular)),
        apply_sel(apply_sel(images, image_upserts(items, popular)), image_upserts(items, popular))
            =~= apply_sel(images, image_upserts(items, popular)),
{
    lemma_apply_sel_idempotent(recipes, recipe_upserts(items, popular));
    lemma_apply_sel_idempotent(images, image_upserts(items, popular));
}

} // verus!
