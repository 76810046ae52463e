use accurate_recipe::{clamp_multiplier, AccurateRecipe, LoadError, Message, Recipe};

fn test_app() -> AccurateRecipe {
    let mut recipes = vec![Recipe::default(); 3];
    recipes[0].name = "Test".to_string();
    AccurateRecipe {
        page: 0,
        portion_multiplier: 100,
        search_value: String::from(""),
        recipes,
    }
}

fn named(names: &[&str]) -> AccurateRecipe {
    let recipes: Vec<Recipe> = names.iter().map(|n| Recipe::default_with_name(n)).collect();
    AccurateRecipe::new(recipes).unwrap()
}

#[test]
fn pages_update_correctly() {
    let mut page_test = test_app();

    page_test.update(Message::Next);
    page_test.update(Message::Next);
    page_test.update(Message::Previous);

    assert_eq!(page_test.page, 1);
}

#[test]
fn search_message_updates_search_query() {
    let mut search_test = test_app();

    let search_value = String::from("test");

    search_test.update(Message::SearchChanged(search_value.clone()));

    assert_eq!(search_test.search_value, search_value.clone());
}

#[test]
fn new_starts_at_first_page() {
    let app = named(&["A", "B"]);
    assert_eq!(app.page, 0);
    assert_eq!(app.portion_multiplier, 100);
    assert_eq!(app.search_value, "");
    assert_eq!(app.recipes.len(), 2);
    assert_eq!(app.current_recipe().name, "A");
}

#[test]
fn new_refuses_empty_collection() {
    assert_eq!(AccurateRecipe::new(Vec::new()).err(), Some(LoadError::Empty));
}

#[test]
fn next_next_previous_lands_on_one() {
    let mut app = named(&["Test123", "Test222", "Test112"]);
    app.update(Message::Next);
    app.update(Message::Next);
    app.update(Message::Previous);
    assert_eq!(app.page, 1);
}

#[test]
fn next_stops_at_last_page() {
    let mut app = named(&["a", "b", "c"]);
    for _ in 0..10 {
        app.update(Message::Next);
        assert!(app.page <= 2);
    }
    assert_eq!(app.page, 2);
}

#[test]
fn previous_stops_at_first_page() {
    let mut app = named(&["a", "b", "c"]);
    app.update(Message::Next);
    for _ in 0..5 {
        app.update(Message::Previous);
    }
    assert_eq!(app.page, 0);
}

#[test]
fn next_on_single_recipe_does_nothing() {
    let mut app = named(&["only"]);
    app.update(Message::Next);
    assert_eq!(app.page, 0);
    app.update(Message::Next);
    assert_eq!(app.page, 0);
}

#[test]
fn search_selects_last_match() {
    let mut app = named(&["Test123", "Test222", "Test112"]);
    app.update(Message::SearchChanged(String::from("Test1")));
    app.update(Message::Search);
    assert_eq!(app.page, 2);
    assert_eq!(app.search_value, "");
    app.update(Message::SearchChanged(String::from("222")));
    app.update(Message::Search);
    assert_eq!(app.page, 1);
}

#[test]
fn search_without_match_keeps_page() {
    let mut app = named(&["Test123", "Test456"]);
    app.update(Message::Next);
    app.update(Message::SearchChanged(String::from("Skkrrrr")));
    app.update(Message::Search);
    assert_eq!(app.page, 1);
    assert_eq!(app.search_value, "");
}

#[test]
fn empty_search_selects_last_recipe() {
    let mut app = named(&["a", "b", "c"]);
    app.update(Message::Search);
    assert_eq!(app.page, 2);
}

#[test]
fn portion_changes_are_clamped() {
    let mut app = named(&["a"]);
    app.update(Message::PortionChanged(250));
    assert_eq!(app.portion_multiplier, 250);
    app.update(Message::PortionChanged(10));
    assert_eq!(app.portion_multiplier, 50);
    app.update(Message::PortionChanged(5000));
    assert_eq!(app.portion_multiplier, 1000);
    assert_eq!(app.page, 0);
    assert_eq!(clamp_multiplier(50), 50);
    assert_eq!(clamp_multiplier(1000), 1000);
    assert_eq!(clamp_multiplier(49), 50);
    assert_eq!(clamp_multiplier(1001), 1000);
}

#[test]
fn page_labels() {
    let mut app = named(&["a", "b", "c"]);
    assert_eq!(app.previous_page_label(), "0");
    assert_eq!(app.next_page_label(), "1");
    app.update(Message::Next);
    assert_eq!(app.previous_page_label(), "0");
    assert_eq!(app.next_page_label(), "2");
    app.update(Message::Next);
    assert_eq!(app.previous_page_label(), "1");
    assert_eq!(app.next_page_label(), "");
    assert_eq!(app.current_recipe().name, "c");
}

#[test]
fn labels_past_nine() {
    let names: Vec<String> = (0..12).map(|i| format!("r{i}")).collect();
    let refs: Vec<&str> = names.iter().map(|s| s.as_str()).collect();
    let mut app = named(&refs);
    for _ in 0..10 {
        app.update(Message::Next);
    }
    assert_eq!(app.previous_page_label(), "9");
    assert_eq!(app.next_page_label(), "11");
}
