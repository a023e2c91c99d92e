use recipe_book::model::{Difficulty, Ingredient, Recipe, RecipeFilters, RecipeStep, Review, SortBy, SortOrder};
use recipe_book::query::{
    compare_ratings, filter_recipes, get_all_tags, get_categories, recipe_matches, search_hits,
    sort_recipes,
};
use recipe_book::text::{compare_strs, contains_str};
use recipe_book::store::{
    add_recipe, delete_recipe, get_all_recipes, get_recipe_by_id, toggle_favorite, update_recipe,
    StoreError,
};
use std::cmp::Ordering;

fn recipe(id: &str, title: &str, category: &str, tags: &[&str], prep: u32) -> Recipe {
    Recipe {
        id: id.to_string(),
        title: title.to_string(),
        description: format!("About {}", title),
        image_url: None,
        prep_time: prep,
        cook_time: 15,
        servings: 2,
        difficulty: Difficulty::Easy,
        category: category.to_string(),
        tags: tags.iter().map(|t| t.to_string()).collect(),
        ingredients: vec![Ingredient {
            id: "i1".to_string(),
            name: "flour".to_string(),
            amount_bits: 1.5f64.to_bits(),
            unit: "cup".to_string(),
        }],
        steps: vec![RecipeStep {
            id: "s1".to_string(),
            order: 1,
            instruction: "Mix".to_string(),
            duration: Some(5),
        }],
        rating_bits: 4.0f64.to_bits(),
        reviews: vec![Review {
            id: "v1".to_string(),
            author: "Sam".to_string(),
            rating: 5,
            comment: "Good".to_string(),
            created_at: "2024-01-01T00:00:00Z".to_string(),
        }],
        is_favorite: false,
        created_at: format!("2024-01-{:02}T00:00:00Z", prep),
        updated_at: "2024-02-01T00:00:00Z".to_string(),
    }
}

fn no_filter() -> RecipeFilters {
    RecipeFilters {
        search: None,
        category: None,
        difficulty: None,
        max_prep_time: None,
        tags: None,
        only_favorites: None,
    }
}

fn ids(v: &[Recipe]) -> Vec<String> {
    v.iter().map(|r| r.id.clone()).collect()
}

fn sample() -> Vec<Recipe> {
    vec![
        recipe("a", "Chocolate Cake", "Dessert", &["sweet"], 30),
        recipe("b", "Tomato Soup", "Soup", &["vegan", "warm"], 10),
        recipe("c", "Brownies", "Dessert", &["sweet", "chocolate-lovers"], 20),
    ]
}

#[test]
fn empty_filter_returns_all_in_store_order() {
    let store = sample();
    let out = filter_recipes(&store, &no_filter(), None, None);
    assert_eq!(ids(&out), vec!["a", "b", "c"]);
}

#[test]
fn category_all_is_same_as_no_category() {
    let store = sample();
    let mut f = no_filter();
    f.category = Some("All".to_string());
    f.max_prep_time = Some(25);
    let mut g = no_filter();
    g.max_prep_time = Some(25);
    assert_eq!(ids(&filter_recipes(&store, &f, None, None)), ids(&filter_recipes(&store, &g, None, None)));
    assert_eq!(ids(&filter_recipes(&store, &f, None, None)), vec!["b", "c"]);
}

#[test]
fn category_filter_is_exact_and_case_sensitive() {
    let store = sample();
    let mut f = no_filter();
    f.category = Some("Dessert".to_string());
    assert_eq!(ids(&filter_recipes(&store, &f, None, None)), vec!["a", "c"]);
    f.category = Some("dessert".to_string());
    assert!(filter_recipes(&store, &f, None, None).is_empty());
}

#[test]
fn toggle_twice_restores_flag() {
    let mut store = sample();
    let first = toggle_favorite(&mut store, "b".to_string()).unwrap();
    assert!(first.is_favorite);
    assert!(store[1].is_favorite);
    let second = toggle_favorite(&mut store, "b".to_string()).unwrap();
    assert!(!second.is_favorite);
    assert!(!store[1].is_favorite);
}

#[test]
fn toggle_missing_id_is_not_found() {
    let mut store = sample();
    match toggle_favorite(&mut store, "zzz".to_string()) {
        Err(StoreError::NotFound(id)) => assert_eq!(id, "zzz"),
        other => panic!("unexpected {:?}", other),
    }
}

#[test]
fn add_then_get_returns_the_record() {
    let mut store = sample();
    let r = recipe("new", "Pancakes", "Breakfast", &["quick"], 5);
    let echoed = add_recipe(&mut store, r.clone());
    assert_eq!(echoed.id, "new");
    assert_eq!(store.len(), 4);
    assert_eq!(store[3].id, "new");
    let got = get_recipe_by_id(&store, "new".to_string()).unwrap();
    assert_eq!(format!("{:?}", got), format!("{:?}", r));
}

#[test]
fn get_missing_id_is_none() {
    let store = sample();
    assert!(get_recipe_by_id(&store, "nope".to_string()).is_none());
}

#[test]
fn get_takes_first_of_duplicate_ids() {
    let mut store = sample();
    add_recipe(&mut store, recipe("a", "Second A", "Other", &[], 1));
    assert_eq!(get_recipe_by_id(&store, "a".to_string()).unwrap().title, "Chocolate Cake");
}

#[test]
fn get_all_copies_in_order() {
    let store = sample();
    assert_eq!(ids(&get_all_recipes(&store)), vec!["a", "b", "c"]);
}

#[test]
fn update_replaces_first_match() {
    let mut store = sample();
    let newer = recipe("b2", "Lentil Soup", "Soup", &[], 12);
    let out = update_recipe(&mut store, "b".to_string(), newer).unwrap();
    assert_eq!(out.title, "Lentil Soup");
    assert_eq!(ids(&store), vec!["a", "b2", "c"]);
}

#[test]
fn update_missing_id_is_not_found() {
    let mut store = sample();
    let before = format!("{:?}", store);
    match update_recipe(&mut store, "x".to_string(), recipe("x", "X", "X", &[], 1)) {
        Err(StoreError::NotFound(id)) => assert_eq!(id, "x"),
        other => panic!("unexpected {:?}", other),
    }
    assert_eq!(format!("{:?}", store), before);
}

#[test]
fn delete_removes_first_match() {
    let mut store = sample();
    assert!(delete_recipe(&mut store, "a".to_string()).unwrap());
    assert_eq!(ids(&store), vec!["b", "c"]);
}

#[test]
fn delete_missing_id_leaves_store_unchanged() {
    let mut store = sample();
    let before = format!("{:?}", get_all_recipes(&store));
    match delete_recipe(&mut store, "missing".to_string()) {
        Err(StoreError::NotFound(id)) => assert_eq!(id, "missing"),
        other => panic!("unexpected {:?}", other),
    }
    assert_eq!(format!("{:?}", get_all_recipes(&store)), before);
}

#[test]
fn sort_by_prep_time_both_directions() {
    let store = sample();
    let asc = filter_recipes(&store, &no_filter(), Some(SortBy::PrepTime), Some(SortOrder::Asc));
    let times: Vec<u32> = asc.iter().map(|r| r.prep_time).collect();
    assert_eq!(times, vec![10, 20, 30]);
    let desc = filter_recipes(&store, &no_filter(), Some(SortBy::PrepTime), Some(SortOrder::Desc));
    let times: Vec<u32> = desc.iter().map(|r| r.prep_time).collect();
    assert_eq!(times, vec![30, 20, 10]);
}

#[test]
fn sort_order_defaults_to_ascending() {
    let store = sample();
    let out = filter_recipes(&store, &no_filter(), Some(SortBy::PrepTime), None);
    assert_eq!(ids(&out), vec!["b", "c", "a"]);
}

#[test]
fn sort_order_without_key_has_no_effect() {
    let store = sample();
    let out = filter_recipes(&store, &no_filter(), None, Some(SortOrder::Desc));
    assert_eq!(ids(&out), vec!["a", "b", "c"]);
}

#[test]
fn sort_by_title_ignores_case() {
    let store = vec![
        recipe("1", "banana bread", "Bakery", &[], 1),
        recipe("2", "Apple Pie", "Bakery", &[], 1),
        recipe("3", "cherry tart", "Bakery", &[], 1),
    ];
    let out = sort_recipes(&store, SortBy::Title, SortOrder::Asc);
    assert_eq!(ids(&out), vec!["2", "1", "3"]);
}

#[test]
fn sort_by_created_at_descending() {
    let store = sample();
    let out = sort_recipes(&store, SortBy::CreatedAt, SortOrder::Desc);
    assert_eq!(ids(&out), vec!["a", "c", "b"]);
}

#[test]
fn sort_by_rating_both_directions() {
    let mut store = sample();
    store[0].rating_bits = 3.5f64.to_bits();
    store[1].rating_bits = 4.5f64.to_bits();
    store[2].rating_bits = 1.0f64.to_bits();
    let out = sort_recipes(&store, SortBy::Rating, SortOrder::Desc);
    assert_eq!(ids(&out), vec!["b", "a", "c"]);
    let out = sort_recipes(&store, SortBy::Rating, SortOrder::Asc);
    assert_eq!(ids(&out), vec!["c", "a", "b"]);
}

#[test]
fn nan_rating_compares_equal_to_everything() {
    let mut store = sample();
    store[0].rating_bits = 3.5f64.to_bits();
    store[1].rating_bits = f64::NAN.to_bits();
    store[2].rating_bits = 1.0f64.to_bits();
    let out = sort_recipes(&store, SortBy::Rating, SortOrder::Asc);
    assert_eq!(ids(&out), vec!["a", "b", "c"]);
}

#[test]
fn stable_for_equal_keys() {
    let store = vec![
        recipe("x", "Same", "C", &[], 5),
        recipe("y", "Same", "C", &[], 5),
        recipe("z", "Same", "C", &[], 5),
    ];
    assert_eq!(ids(&sort_recipes(&store, SortBy::PrepTime, SortOrder::Desc)), vec!["x", "y", "z"]);
    assert_eq!(ids(&sort_recipes(&store, SortBy::Title, SortOrder::Asc)), vec!["x", "y", "z"]);
}

#[test]
fn rating_comparison_follows_partial_cmp() {
    let nan = f64::NAN.to_bits();
    assert_eq!(compare_ratings(1.0f64.to_bits(), 2.0f64.to_bits()), Ordering::Less);
    assert_eq!(compare_ratings(2.0f64.to_bits(), 1.0f64.to_bits()), Ordering::Greater);
    assert_eq!(compare_ratings((-1.0f64).to_bits(), 0.5f64.to_bits()), Ordering::Less);
    assert_eq!(compare_ratings((-2.0f64).to_bits(), (-1.0f64).to_bits()), Ordering::Less);
    assert_eq!(compare_ratings(0.0f64.to_bits(), (-0.0f64).to_bits()), Ordering::Equal);
    assert_eq!(compare_ratings(nan, 1.0f64.to_bits()), Ordering::Equal);
    assert_eq!(compare_ratings(1.0f64.to_bits(), nan), Ordering::Equal);
    assert_eq!(compare_ratings(f64::INFINITY.to_bits(), 5.0f64.to_bits()), Ordering::Greater);
}

#[test]
fn tag_filter_selects_the_one_vegan_record() {
    let store = sample();
    let mut f = no_filter();
    f.tags = Some(vec!["vegan".to_string()]);
    assert_eq!(ids(&filter_recipes(&store, &f, None, None)), vec!["b"]);
}

#[test]
fn empty_tag_filter_is_ignored() {
    let store = sample();
    let mut f = no_filter();
    f.tags = Some(vec![]);
    assert_eq!(ids(&filter_recipes(&store, &f, None, None)), vec!["a", "b", "c"]);
}

#[test]
fn tag_filter_is_any_of() {
    let store = sample();
    let mut f = no_filter();
    f.tags = Some(vec!["warm".to_string(), "chocolate-lovers".to_string()]);
    assert_eq!(ids(&filter_recipes(&store, &f, None, None)), vec!["b", "c"]);
}

#[test]
fn categories_are_sorted_distinct_after_all() {
    let store = sample();
    assert_eq!(get_categories(&store), vec!["All", "Dessert", "Soup"]);
}

#[test]
fn categories_of_empty_store() {
    assert_eq!(get_categories(&Vec::new()), vec!["All"]);
}

#[test]
fn tags_are_sorted_distinct() {
    let store = sample();
    assert_eq!(get_all_tags(&store), vec!["chocolate-lovers", "sweet", "vegan", "warm"]);
    assert!(get_all_tags(&Vec::new()).is_empty());
}

#[test]
fn search_matches_title_and_tag_ignoring_case() {
    let store = sample();
    let mut f = no_filter();
    f.search = Some("choc".to_string());
    assert_eq!(ids(&filter_recipes(&store, &f, None, None)), vec!["a", "c"]);
    f.search = Some("CHOC".to_string());
    assert_eq!(ids(&filter_recipes(&store, &f, None, None)), vec!["a", "c"]);
    assert!(search_hits(&store[2], &"Lovers".to_string()));
    assert!(!search_hits(&store[1], &"choc".to_string()));
}

#[test]
fn search_matches_description_and_category() {
    let store = sample();
    assert!(search_hits(&store[1], &"about tomato".to_string()));
    assert!(search_hits(&store[1], &"soup".to_string()));
}

#[test]
fn difficulty_favorites_and_prep_time_filters() {
    let mut store = sample();
    store[2].difficulty = Difficulty::Hard;
    store[2].is_favorite = true;
    let mut f = no_filter();
    f.difficulty = Some(Difficulty::Hard);
    assert_eq!(ids(&filter_recipes(&store, &f, None, None)), vec!["c"]);
    let mut f = no_filter();
    f.only_favorites = Some(true);
    assert_eq!(ids(&filter_recipes(&store, &f, None, None)), vec!["c"]);
    f.only_favorites = Some(false);
    assert_eq!(ids(&filter_recipes(&store, &f, None, None)), vec!["a", "b", "c"]);
    let mut f = no_filter();
    f.max_prep_time = Some(20);
    assert!(recipe_matches(&store[2], &f));
    assert!(!recipe_matches(&store[0], &f));
}

#[test]
fn string_helpers() {
    assert!(contains_str("chocolate cake", "late"));
    assert!(contains_str("abc", ""));
    assert!(!contains_str("ab", "abc"));
    assert!(!contains_str("abc", "acb"));
    assert_eq!(compare_strs("apple", "apples"), Ordering::Less);
    assert_eq!(compare_strs("b", "a"), Ordering::Greater);
    assert_eq!(compare_strs("Zoo", "apple"), Ordering::Less);
    assert_eq!(compare_strs("same", "same"), Ordering::Equal);
}
