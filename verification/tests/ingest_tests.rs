use yummy_backend::images::ImageData;
use yummy_backend::ingest::build_record;
use yummy_backend::ingest::decode_payload;
use yummy_backend::ingest::ingest_record;
use yummy_backend::ingest::ingest_records;
use yummy_backend::ingest::Ingredient;
use yummy_backend::ingest::ingredient_names;
use yummy_backend::ingest::RecipeSingleItem;
use yummy_backend::images::get_image;
use yummy_backend::recipes::add_recipe;
use yummy_backend::recipes::take_recipe;
use yummy_backend::recipes::take_recipes_names;
use yummy_backend::recipes::take_recipes_of_specific_type;
use yummy_backend::recipes::RecipePayload;
use yummy_backend::store::EntityStore;
use yummy_backend::user::create_user;
use yummy_backend::user::PrincipalId;
use yummy_backend::Error;

fn curated_payload() -> String {
    let node_a = "{\"node\":{\"name\":\"Shakshuka\",\"mainImage\":\"http://img/shakshuka\",\"instructions\":[\"heat pan\",\"add eggs\"],\"ingredientLines\":[\"2 eggs\",\"1 tomato\"],\"tags\":[\"Breakfast\"],\"cuisines\":[\"Middle Eastern\"],\"totalTimeInSeconds\":900}}";
    let node_b = "{\"node\":{\"name\":\"Granola\",\"mainImage\":\"http://img/granola\",\"ingredients\":[{\"name\":\"oats\"},{\"name\":\"honey\"}],\"tags\":[\"Breakfast\",\"Snack\"]}}";
    format!(
        "{{\"data\":{{\"popularRecipes\":{{\"edges\":[{},{}]}}}}}}",
        node_a, node_b
    )
}

fn decode_curated() -> Vec<RecipeSingleItem> {
    decode_payload(&curated_payload(), "popularRecipes").expect("payload decodes")
}

#[test]
fn decode_reads_records_and_both_ingredient_shapes() {
    let items = decode_curated();
    assert_eq!(items.len(), 2);
    assert_eq!(items[0].node.name, "Shakshuka".to_string());
    assert_eq!(items[0].node.main_image, "http://img/shakshuka".to_string());
    assert_eq!(
        items[0].node.instructions,
        vec!["heat pan".to_string(), "add eggs".to_string()]
    );
    assert_eq!(
        items[0].node.ingredient_lines,
        vec!["2 eggs".to_string(), "1 tomato".to_string()]
    );
    assert_eq!(items[0].node.cuisines, Some(vec!["Middle Eastern".to_string()]));
    assert_eq!(items[0].node.total_time_in_seconds, 900);
    assert_eq!(
        items[1].node.ingredient_lines,
        vec!["oats".to_string(), "honey".to_string()],
        "ingredient objects fall back to their names"
    );
    assert_eq!(items[1].node.total_time_in_seconds, 0);
    assert_eq!(items[1].node.cuisines, None);
}

#[test]
fn decode_rejects_malformed_payloads_whole() {
    let missing_name = "{\"data\":{\"recipesByTag\":{\"edges\":[{\"node\":{\"mainImage\":\"http://img/x\"}}]}}}";
    assert!(matches!(
        decode_payload(missing_name, "recipesByTag"),
        Err(Error::RecipesNotFound { .. })
    ));
    assert!(matches!(
        decode_payload("not json at all", "recipesByTag"),
        Err(Error::RecipesNotFound { .. })
    ));
    assert!(matches!(
        decode_payload("{\"data\":{}}", "recipesByTag"),
        Err(Error::RecipesNotFound { .. })
    ));
    let wrong_kind = curated_payload();
    assert!(matches!(
        decode_payload(&wrong_kind, "recipesByTag"),
        Err(Error::RecipesNotFound { .. })
    ));
    let oversized_time = "{\"data\":{\"recipesByTag\":{\"edges\":[{\"node\":{\"name\":\"A\",\"mainImage\":\"http://img/a\",\"totalTimeInSeconds\":70000}}]}}}";
    assert!(matches!(
        decode_payload(oversized_time, "recipesByTag"),
        Err(Error::RecipesNotFound { .. })
    ));
}

#[test]
fn build_record_requires_name_image_and_a_fitting_time() {
    let r = build_record(
        None,
        Some("http://img/x".to_string()),
        vec![],
        vec![],
        None,
        vec![],
        None,
    );
    assert!(matches!(r, Err(Error::RecipesNotFound { .. })));
    let too_long = build_record(
        Some("A".to_string()),
        Some("http://img/x".to_string()),
        vec![],
        vec![],
        None,
        vec![],
        Some(70_000),
    );
    assert!(matches!(too_long, Err(Error::RecipesNotFound { .. })));
    let ok = build_record(
        Some("A".to_string()),
        Some("http://img/x".to_string()),
        vec!["s".to_string()],
        vec!["i".to_string()],
        None,
        vec!["t".to_string()],
        Some(60),
    )
    .expect("a complete record builds");
    assert_eq!(ok.total_time_in_seconds, 60);
}

#[test]
fn ingredient_names_projects_the_name_of_each() {
    let ing = vec![
        Ingredient { name: "oats".to_string() },
        Ingredient { name: "honey".to_string() },
    ];
    assert_eq!(ingredient_names(&ing), vec!["oats".to_string(), "honey".to_string()]);
}

#[test]
fn ingestion_stores_records_with_their_images() {
    let mut store = EntityStore::new();
    let items = decode_curated();
    let stored = ingest_record(
        &mut store,
        &items[0],
        Some(ImageData::Bytes(vec![7u8; 64])),
        true,
    );
    assert!(stored);
    let (recipe, author) = take_recipe(&store, "Shakshuka".to_string()).unwrap();
    assert!(recipe.popular, "the curated feed sets the flag");
    assert_eq!(recipe.author_id, None, "curated recipes have no owner");
    assert_eq!(recipe.instructions, vec!["heat pan".to_string(), "add eggs".to_string()]);
    assert_eq!(recipe.ingredients, vec!["2 eggs".to_string(), "1 tomato".to_string()]);
    assert_eq!(recipe.total_time_in_seconds, 900);
    assert_eq!(author, None);
    match get_image(&store, "Shakshuka".to_string()).unwrap() {
        ImageData::Bytes(b) => assert_eq!(b, vec![7u8; 64]),
        ImageData::Url(_) => panic!("the fetched bytes were stored"),
    }
    let popular = take_recipes_of_specific_type(&store, "Popular".to_string());
    assert_eq!(popular.len(), 1);
}

#[test]
fn ingesting_the_same_payload_twice_changes_nothing() {
    let items: Vec<(RecipeSingleItem, Option<ImageData>)> = decode_curated()
        .into_iter()
        .map(|it| (it, Some(ImageData::Bytes(vec![5u8; 32]))))
        .collect();

    let mut once = EntityStore::new();
    ingest_records(&mut once, &items, true);

    let mut twice = EntityStore::new();
    ingest_records(&mut twice, &items, true);
    ingest_records(&mut twice, &items, true);

    assert_eq!(take_recipes_names(&once), take_recipes_names(&twice));
    for name in take_recipes_names(&once) {
        let (a, _) = take_recipe(&once, name.clone()).unwrap();
        let (b, _) = take_recipe(&twice, name.clone()).unwrap();
        assert_eq!(a.instructions, b.instructions);
        assert_eq!(a.ingredients, b.ingredients);
        assert_eq!(a.tags, b.tags);
        assert_eq!(a.cuisines, b.cuisines);
        assert_eq!(a.total_time_in_seconds, b.total_time_in_seconds);
        assert_eq!(a.popular, b.popular);
        assert_eq!(a.author_id, b.author_id);
        let ia = get_image(&once, name.clone());
        let ib = get_image(&twice, name);
        match (ia, ib) {
            (Ok(ImageData::Bytes(x)), Ok(ImageData::Bytes(y))) => assert_eq!(x, y),
            (Err(_), Err(_)) => {}
            _ => panic!("image stores diverged"),
        }
    }
}

#[test]
fn ingestion_overwrites_an_existing_name_unconditionally() {
    let mut store = EntityStore::new();
    let alice = create_user(
        &mut store,
        PrincipalId { bytes: vec![1] },
        "alice".to_string(),
    )
    .unwrap();
    add_recipe(
        &mut store,
        RecipePayload {
            name: "Shakshuka".to_string(),
            instructions: vec!["my way".to_string()],
            ingredients: vec!["eggs".to_string()],
            tags: vec![],
            cuisines: vec![],
            total_time_in_seconds: 60,
            image: "".to_string(),
            author_id: alice,
        },
    )
    .unwrap();

    let items = decode_curated();
    assert!(ingest_record(&mut store, &items[0], None, true));
    let (recipe, _) = take_recipe(&store, "Shakshuka".to_string()).unwrap();
    assert!(recipe.popular, "re-ingestion overwrote the user recipe with the curated one");
    assert_eq!(recipe.author_id, None);
    assert_eq!(take_recipes_names(&store).len(), 1, "overwrite, not duplication");
}

#[test]
fn oversized_ingested_record_is_skipped_but_the_rest_lands() {
    let mut store = EntityStore::new();
    let mut items: Vec<(RecipeSingleItem, Option<ImageData>)> = decode_curated()
        .into_iter()
        .map(|it| (it, None))
        .collect();
    items[0].0.node.instructions = vec!["x".repeat(6000)];
    let stored = ingest_records(&mut store, &items, true);
    assert_eq!(stored, 1);
    assert_eq!(take_recipes_names(&store), vec!["Granola".to_string()]);
}
