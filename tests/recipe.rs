use accurate_recipe::search::search_recipe_by_name;
use accurate_recipe::Recipe;

fn bread() -> Recipe {
    Recipe::from_parts(
        String::from("Bread"),
        2000,
        vec![(String::from("Flour"), 500_000), (String::from("Yeast"), 3_000)],
        vec![String::from("Mix"), String::from("Bake")],
        String::from("bread.jpg"),
    )
}

#[test]
fn ingredients_added_to_recipe() {
    let mut recipe = Recipe::default();
    recipe.add_ingredient("Flour", 500_000);
    assert!(recipe.ingredient("Flour").is_some());
    assert_eq!(recipe.ingredient("Flour").unwrap(), 500_000);
}

#[test]
fn ingredients_string_conversion_as_expected() {
    let mut recipe = Recipe::default();
    recipe.add_ingredient("Flour", 500_000);
    let expected = "Ingredients\n---------------\nFlour: 500 g\n";
    assert_eq!(&recipe.ingredients_to_string(100), expected);
}

#[test]
fn instructions_string_conversion_as_expected() {
    let mut recipe = Recipe::default();
    recipe.instructions.push(String::from("Add Plastic."));
    recipe.instructions.push(String::from("Do not eat."));
    let expected = "Instructions\n---------------\n1. Add Plastic.\n2. Do not eat.\n";
    assert_eq!(&recipe.instructions_to_string(), expected);
}

#[test]
fn search_returns_correct_results() {
    let mut recipes = vec![Recipe::default(); 5];
    recipes[0].name = String::from("Test123");
    recipes[1].name = String::from("Test222");
    recipes[2].name = String::from("Test333");
    recipes[3].name = String::from("Test456");
    recipes[4].name = String::from("Test112");

    assert_eq!(
        vec![(0usize, &recipes[0]), (4, &recipes[4])],
        search_recipe_by_name(&recipes, "Test1")
    );
}

#[test]
fn unsuccessful_search_returns_empty_vector() {
    let expected: Vec<(usize, &Recipe)> = Vec::new();
    let mut recipes = vec![Recipe::default(); 2];
    recipes[0].name = String::from("Test123");
    recipes[1].name = String::from("Test456");

    assert_eq!(expected, search_recipe_by_name(&recipes, "Skkrrrr"));
}

#[test]
fn bread_instructions_text() {
    assert_eq!(
        bread().instructions_to_string(),
        "Instructions\n---------------\n1. Mix\n2. Bake\n"
    );
}

#[test]
fn bread_portions_doubled() {
    assert_eq!(bread().portions_multiplied_to_string(200), "Portions: 4");
}

#[test]
fn bread_portions_at_one() {
    assert_eq!(bread().portions_multiplied_to_string(100), "Portions: 2");
}

#[test]
fn portions_with_fraction() {
    // 2 servings at 0.75x is 1.5 servings.
    assert_eq!(bread().portions_multiplied_to_string(75), "Portions: 1.5");
}

#[test]
fn portions_of_empty_recipe_are_zero() {
    assert_eq!(Recipe::default().portions_multiplied_to_string(100), "Portions: 0");
}

#[test]
fn bread_ingredients_scaled() {
    assert_eq!(
        bread().ingredients_to_string(250),
        "Ingredients\n---------------\nFlour: 1250 g\nYeast: 7.5 g\n"
    );
    assert_eq!(
        bread().ingredients_multiplied_to_string(250),
        bread().ingredients_to_string(250)
    );
}

#[test]
fn small_fractions_keep_leading_zeros() {
    let mut recipe = Recipe::default_with_name("Salt");
    recipe.add_ingredient("Salt", 3);
    // 0.003 g at 0.5x is 0.0015 g.
    assert_eq!(
        recipe.ingredients_to_string(50),
        "Ingredients\n---------------\nSalt: 0.0015 g\n"
    );
    assert_eq!(recipe.name, "Salt");
}

#[test]
fn scaling_composes_on_values() {
    // 3 g at 2.5x, then at 4.0x, equals 3 g at 10.0x: 30 g.
    let once = accurate_recipe::scale(3_000, 250);
    assert_eq!(once * 400, accurate_recipe::scale(3_000, 1000) * 100);
    let mut recipe = Recipe::default();
    recipe.add_ingredient("Yeast", 3_000);
    assert_eq!(
        recipe.ingredients_to_string(1000),
        "Ingredients\n---------------\nYeast: 30 g\n"
    );
}

#[test]
fn add_ingredient_replaces_existing_entry() {
    let mut recipe = Recipe::default();
    recipe.add_ingredient("Flour", 500_000);
    recipe.add_ingredient("Sugar", 20_000);
    recipe.add_ingredient("Flour", 450_000);
    assert_eq!(recipe.ingredient("Flour"), Some(450_000));
    assert_eq!(recipe.ingredient("Milk"), None);
    assert_eq!(
        recipe.ingredients_to_string(100),
        "Ingredients\n---------------\nFlour: 450 g\nSugar: 20 g\n"
    );
}

#[test]
fn from_parts_keeps_fields() {
    let r = bread();
    assert_eq!(r.name, "Bread");
    assert_eq!(r.portions(), 2000);
    assert_eq!(r.ingredient("Flour"), Some(500_000));
    assert_eq!(r.ingredient("Yeast"), Some(3_000));
    assert_eq!(r.instructions, vec![String::from("Mix"), String::from("Bake")]);
    assert_eq!(r.image, "bread.jpg");
}

#[test]
fn from_parts_merges_repeated_names() {
    let r = Recipe::from_parts(
        String::from("Soup"),
        1000,
        vec![(String::from("Salt"), 1_000), (String::from("Salt"), 2_000)],
        Vec::new(),
        String::new(),
    );
    assert_eq!(r.ingredients.len(), 1);
    assert_eq!(r.ingredient("Salt"), Some(2_000));
}

#[test]
fn search_matches_test1_scenario() {
    let names = ["Test123", "Test222", "Test112"];
    let recipes: Vec<Recipe> = names.iter().map(|n| Recipe::default_with_name(n)).collect();
    let found = search_recipe_by_name(&recipes, "Test1");
    let indices: Vec<usize> = found.iter().map(|(i, _)| *i).collect();
    assert_eq!(indices, vec![0, 2]);
    assert_eq!(found[1].1.name, "Test112");
}

#[test]
fn empty_query_matches_every_recipe() {
    let names = ["b", "a", "c"];
    let recipes: Vec<Recipe> = names.iter().map(|n| Recipe::default_with_name(n)).collect();
    let indices: Vec<usize> = search_recipe_by_name(&recipes, "").iter().map(|(i, _)| *i).collect();
    assert_eq!(indices, vec![0, 1, 2]);
}

#[test]
fn search_is_case_sensitive() {
    let recipes = vec![Recipe::default_with_name("Bread"), Recipe::default_with_name("bread roll")];
    let indices: Vec<usize> = search_recipe_by_name(&recipes, "Bread").iter().map(|(i, _)| *i).collect();
    assert_eq!(indices, vec![0]);
    let none = search_recipe_by_name(&recipes, "Breads");
    assert!(none.is_empty());
}

#[test]
fn search_on_non_ascii_names() {
    let recipes = vec![Recipe::default_with_name("Crème brûlée"), Recipe::default_with_name("Crepe")];
    let indices: Vec<usize> = search_recipe_by_name(&recipes, "brûl").iter().map(|(i, _)| *i).collect();
    assert_eq!(indices, vec![0]);
}

#[test]
fn ingredients_are_listed_by_name() {
    let mut recipe = Recipe::default();
    recipe.add_ingredient("Yeast", 3_000);
    recipe.add_ingredient("Water", 300_000);
    recipe.add_ingredient("Flour", 500_000);
    assert_eq!(
        recipe.ingredients_to_string(100),
        "Ingredients\n---------------\nFlour: 500 g\nWater: 300 g\nYeast: 3 g\n"
    );
}

#[test]
fn ingredient_order_is_by_code_point() {
    let mut recipe = Recipe::default();
    recipe.add_ingredient("apple", 1_000);
    recipe.add_ingredient("Zest", 2_000);
    recipe.add_ingredient("App", 3_000);
    recipe.add_ingredient("Apple", 4_000);
    let names: Vec<&str> = recipe.ingredients.iter().map(|(n, _)| n.as_str()).collect();
    assert_eq!(names, vec!["App", "Apple", "Zest", "apple"]);
}

#[test]
fn from_parts_sorts_unsorted_input() {
    let r = Recipe::from_parts(
        String::from("Tea"),
        1000,
        vec![(String::from("Water"), 250_000), (String::from("Leaves"), 2_000)],
        Vec::new(),
        String::new(),
    );
    assert_eq!(
        r.ingredients_to_string(200),
        "Ingredients\n---------------\nLeaves: 4 g\nWater: 500 g\n"
    );
}
