use yummy_backend::images::ImageData;
use yummy_backend::recipes::add_recipe;
use yummy_backend::recipes::delete_recipe;
use yummy_backend::recipes::get_recipes_len;
use yummy_backend::recipes::get_recipes_names;
use yummy_backend::recipes::recipe_exists;
use yummy_backend::recipes::take_recipe;
use yummy_backend::recipes::take_recipes_by_author;
use yummy_backend::recipes::take_recipes_names;
use yummy_backend::recipes::take_recipes_of_specific_type;
use yummy_backend::recipes::take_user_recipes_with_author_names;
use yummy_backend::recipes::transform_recipe_to_brief_response;
use yummy_backend::recipes::RecipeInfo;
use yummy_backend::recipes::RecipePayload;
use yummy_backend::store::EntityStore;
use yummy_backend::user::create_user;
use yummy_backend::user::delete_user;
use yummy_backend::user::get_all_users;
use yummy_backend::user::get_user_by_index;
use yummy_backend::user::get_user_index;
use yummy_backend::user::get_user_info;
use yummy_backend::user::get_username_by_index;
use yummy_backend::user::update_username;
use yummy_backend::user::PrincipalId;
use yummy_backend::images::add_image;
use yummy_backend::images::get_image;
use yummy_backend::Error;

fn principal(byte: u8) -> PrincipalId {
    PrincipalId { bytes: vec![byte] }
}

fn payload(name: &str, author_id: u64, image: &str) -> RecipePayload {
    RecipePayload {
        name: name.to_string(),
        instructions: vec!["step one".to_string(), "step two".to_string()],
        ingredients: vec!["eggs".to_string(), "salt".to_string()],
        tags: vec!["Breakfast".to_string()],
        cuisines: vec!["French".to_string()],
        total_time_in_seconds: 600,
        image: image.to_string(),
        author_id,
    }
}

#[test]
fn register_user_mints_increasing_indices() {
    let mut store = EntityStore::new();
    let a = create_user(&mut store, principal(1), "alice".to_string()).expect("alice registers");
    let b = create_user(&mut store, principal(2), "bob".to_string()).expect("bob registers");
    assert_eq!(a, 1);
    assert_eq!(b, 2);
    let again = create_user(&mut store, principal(1), "alice2".to_string());
    assert!(matches!(again, Err(Error::UserAlreadyExists { .. })));
    let c = create_user(&mut store, principal(3), "carol".to_string()).expect("carol registers");
    assert_eq!(c, 3, "a rejected registration consumes no index");
    assert!(c > b, "indices keep increasing");
}

#[test]
fn deleted_user_indices_are_never_reused() {
    let mut store = EntityStore::new();
    let a = create_user(&mut store, principal(1), "alice".to_string()).unwrap();
    let b = create_user(&mut store, principal(2), "bob".to_string()).unwrap();
    delete_user(&mut store, &principal(2)).expect("bob deletes his account");
    let c = create_user(&mut store, principal(4), "dave".to_string()).unwrap();
    assert!(c > b && b > a);
    assert!(matches!(
        get_user_by_index(&store, b),
        Err(Error::UserNotFound { .. })
    ));
}

#[test]
fn colliding_recipe_name_is_rejected_and_owner_kept() {
    let mut store = EntityStore::new();
    let alice = create_user(&mut store, principal(1), "alice".to_string()).unwrap();
    let bob = create_user(&mut store, principal(2), "bob".to_string()).unwrap();
    add_recipe(&mut store, payload("Omelette", alice, "")).expect("first submission stored");
    let second = add_recipe(&mut store, payload("Omelette", bob, ""));
    assert!(matches!(second, Err(Error::RecipeAlreadyExists { .. })));
    let (recipe, author) = take_recipe(&store, "Omelette".to_string()).unwrap();
    assert_eq!(recipe.author_id, Some(alice), "the owner is still alice");
    assert_eq!(author, Some("alice".to_string()));
    let names = take_recipes_names(&store);
    assert_eq!(names, vec!["Omelette".to_string()], "no duplicate entry appeared");
}

#[test]
fn add_recipe_requires_a_registered_author() {
    let mut store = EntityStore::new();
    let r = add_recipe(&mut store, payload("Soup", 7, ""));
    assert!(matches!(r, Err(Error::UserNotFound { .. })));
    assert_eq!(get_recipes_len(&store), 0);
}

#[test]
fn cascade_delete_removes_exactly_the_owners_entities() {
    let mut store = EntityStore::new();
    let alice = create_user(&mut store, principal(1), "alice".to_string()).unwrap();
    let bob = create_user(&mut store, principal(2), "bob".to_string()).unwrap();
    add_recipe(&mut store, payload("Omelette", alice, "http://img/omelette")).unwrap();
    add_recipe(&mut store, payload("Quiche", alice, "http://img/quiche")).unwrap();
    add_recipe(&mut store, payload("Stew", bob, "http://img/stew")).unwrap();

    delete_user(&mut store, &principal(1)).expect("alice deletes her account");

    assert!(!recipe_exists(&store, "Omelette".to_string()));
    assert!(!recipe_exists(&store, "Quiche".to_string()));
    assert!(matches!(
        get_image(&store, "Omelette".to_string()),
        Err(Error::ImagesNotFound { .. })
    ));
    assert!(matches!(
        get_image(&store, "Quiche".to_string()),
        Err(Error::ImagesNotFound { .. })
    ));
    assert!(recipe_exists(&store, "Stew".to_string()), "bob's recipe is untouched");
    assert!(get_image(&store, "Stew".to_string()).is_ok(), "bob's image is untouched");
    assert!(matches!(
        get_user_index(&store, &principal(1)),
        Err(Error::UserNotFound { .. })
    ));
}

#[test]
fn oversized_recipe_is_rejected_without_partial_write() {
    let mut store = EntityStore::new();
    let alice = create_user(&mut store, principal(1), "alice".to_string()).unwrap();
    let mut big = payload("Feast", alice, "http://img/feast");
    big.instructions = vec!["x".repeat(6000)];
    let r = add_recipe(&mut store, big);
    assert!(matches!(r, Err(Error::EntityTooLarge { .. })));
    assert!(!recipe_exists(&store, "Feast".to_string()));
    assert!(
        matches!(get_image(&store, "Feast".to_string()), Err(Error::ImagesNotFound { .. })),
        "no image was written either"
    );
    assert_eq!(get_recipes_len(&store), 0);
}

#[test]
fn oversized_image_and_user_are_rejected() {
    let mut store = EntityStore::new();
    let r = add_image(
        &mut store,
        "big".to_string(),
        ImageData::Bytes(vec![0u8; 5 * 1024 * 1024]),
    );
    assert!(matches!(r, Err(Error::EntityTooLarge { .. })));
    assert!(matches!(
        get_image(&store, "big".to_string()),
        Err(Error::ImagesNotFound { .. })
    ));
    let u = create_user(&mut store, principal(1), "n".repeat(2000));
    assert!(matches!(u, Err(Error::EntityTooLarge { .. })));
}

#[test]
fn rename_is_owner_gated_and_validated() {
    let mut store = EntityStore::new();
    let alice = create_user(&mut store, principal(1), "alice".to_string()).unwrap();
    let empty = update_username(&mut store, &principal(1), alice, "".to_string());
    assert!(matches!(empty, Err(Error::InvalidName { .. })));
    let foreign = update_username(&mut store, &principal(2), alice, "mallory".to_string());
    assert!(matches!(foreign, Err(Error::CallerNotAuthorized { .. })));
    let anonymous = update_username(&mut store, &principal(4), alice, "anon".to_string());
    assert!(matches!(anonymous, Err(Error::CallerNotAuthorized { .. })));
    let missing = update_username(&mut store, &principal(1), 99, "ghost".to_string());
    assert!(matches!(missing, Err(Error::UserNotFound { .. })));
    let renamed = update_username(&mut store, &principal(1), alice, "alicia".to_string()).unwrap();
    assert_eq!(renamed.name, "alicia".to_string());
    assert_eq!(get_username_by_index(&store, alice), Some("alicia".to_string()));
}

#[test]
fn delete_recipe_is_ownership_gated() {
    let mut store = EntityStore::new();
    let alice = create_user(&mut store, principal(1), "alice".to_string()).unwrap();
    create_user(&mut store, principal(2), "bob".to_string()).unwrap();
    add_recipe(&mut store, payload("Omelette", alice, "http://img/omelette")).unwrap();

    let missing = delete_recipe(&mut store, &principal(1), "Nothing".to_string());
    assert!(matches!(missing, Err(Error::RecipeNotFound { .. })));
    let foreign = delete_recipe(&mut store, &principal(2), "Omelette".to_string());
    assert!(matches!(foreign, Err(Error::CallerNotAuthorized { .. })));
    assert!(recipe_exists(&store, "Omelette".to_string()));

    delete_recipe(&mut store, &principal(1), "Omelette".to_string()).expect("owner may delete");
    assert!(!recipe_exists(&store, "Omelette".to_string()));
    assert!(matches!(
        get_image(&store, "Omelette".to_string()),
        Err(Error::ImagesNotFound { .. })
    ));
}

#[test]
fn user_lookups_report_what_is_stored() {
    let mut store = EntityStore::new();
    assert!(matches!(get_all_users(&store), Err(Error::UserNotFound { .. })));
    assert!(matches!(get_recipes_names(&store), Err(Error::RecipesNotFound { .. })));
    let alice = create_user(&mut store, principal(1), "alice".to_string()).unwrap();
    assert_eq!(get_user_index(&store, &principal(1)).unwrap(), alice);
    let info = get_user_info(&store, &principal(1)).unwrap();
    assert_eq!(info.name, "alice".to_string());
    assert_eq!(info.id.bytes, vec![1]);
    let all = get_all_users(&store).unwrap();
    assert_eq!(all.len(), 1);
    assert_eq!(all[0].name, "alice".to_string());
}

#[test]
fn brief_listing_takes_five_tags_and_minutes() {
    let tags: Vec<String> = (1..=7).map(|i| format!("tag{}", i)).collect();
    let recipe = RecipeInfo::new(
        vec!["step".to_string()],
        vec!["thing".to_string()],
        tags,
        vec![],
        605,
        false,
        Some(3),
    );
    let brief = transform_recipe_to_brief_response(
        "Pancakes".to_string(),
        recipe,
        Some("alice".to_string()),
    );
    assert_eq!(brief.name, "Pancakes".to_string());
    assert_eq!(
        brief.tags,
        vec!["tag1", "tag2", "tag3", "tag4", "tag5"]
            .into_iter()
            .map(|s| s.to_string())
            .collect::<Vec<String>>()
    );
    assert_eq!(brief.total_time, 10, "six hundred five seconds round down to ten minutes");
    assert_eq!(brief.author, Some("alice".to_string()));
}

#[test]
fn listings_filter_by_flag_tag_and_author() {
    let mut store = EntityStore::new();
    let alice = create_user(&mut store, principal(1), "alice".to_string()).unwrap();
    let bob = create_user(&mut store, principal(2), "bob".to_string()).unwrap();
    add_recipe(&mut store, payload("Omelette", alice, "")).unwrap();
    add_recipe(&mut store, payload("Stew", bob, "")).unwrap();
    let mut lunch = payload("Salad", bob, "");
    lunch.tags = vec!["Lunch".to_string()];
    add_recipe(&mut store, lunch).unwrap();

    let breakfast = take_recipes_of_specific_type(&store, "Breakfast".to_string());
    let breakfast_names: Vec<String> = breakfast.iter().map(|b| b.name.clone()).collect();
    assert_eq!(breakfast_names, vec!["Omelette".to_string(), "Stew".to_string()]);

    let popular = take_recipes_of_specific_type(&store, "Popular".to_string());
    assert!(popular.is_empty(), "user-authored recipes are not curated");

    let bobs = take_recipes_by_author(&store, bob);
    let bob_names: Vec<String> = bobs.iter().map(|b| b.name.clone()).collect();
    assert_eq!(bob_names, vec!["Salad".to_string(), "Stew".to_string()]);
    assert_eq!(bobs[0].author, Some("bob".to_string()));

    let authored = take_user_recipes_with_author_names(&store);
    assert_eq!(authored.len(), 3, "every stored recipe here has an author");
}

#[test]
fn recipes_list_in_key_order_whatever_the_insertion_order() {
    let mut store = EntityStore::new();
    let alice = create_user(&mut store, principal(1), "alice".to_string()).unwrap();
    for name in ["Waffles", "Bagel", "Muffin"] {
        add_recipe(&mut store, payload(name, alice, "")).unwrap();
    }
    assert_eq!(
        take_recipes_names(&store),
        vec!["Bagel".to_string(), "Muffin".to_string(), "Waffles".to_string()],
        "iteration order is key order, not insertion order"
    );
}
