use recipes::codec::MalformedRecord;
use recipes::recipe::{Ingredient, Recipe};
use recipes::store::{slug_of, AddOutcome, LoadError, RecipeManager, RemoveError};
use recipes::unit::{Unit, Volume};

fn ingredient(name: &str, quantity: &str, unit: Unit) -> Ingredient {
    Ingredient { name: name.to_string(), quantity: quantity.to_string(), unit }
}

fn pancakes() -> Recipe {
    Recipe {
        name: "Pancakes".to_string(),
        description: "Fluffy".to_string(),
        ingredients: vec![
            ingredient("flour", "2.0", Unit::Volume(Volume::Cup)),
            ingredient("egg", "1.0", Unit::Piece),
        ],
        steps: vec!["Mix".to_string(), "Cook".to_string()],
    }
}

#[test]
fn slugs_are_lowercased_and_underscored() {
    assert_eq!(slug_of("Pancakes"), "pancakes");
    assert_eq!(slug_of("My Best Soup"), "my_best_soup");
    assert_eq!(slug_of("already_plain"), "already_plain");
}

#[test]
fn end_to_end_add_reload_remove_reload() {
    // empty store
    let mut m = RecipeManager::new();
    assert_eq!(m.recipes.len(), 0);

    // add the recipe
    let added = m.add(pancakes());
    assert_eq!(added, AddOutcome::Added);
    assert_eq!(m.recipes.len(), 1);

    // the program restarts: reload from the persisted records
    let reloaded = RecipeManager::load_all(m.files.clone()).expect("store must reload");
    assert_eq!(reloaded.recipes.len(), 1);
    assert_eq!(reloaded.recipes[0], pancakes());

    // remove under a lowercased name
    let mut reloaded = reloaded;
    assert_eq!(reloaded.remove("pancakes"), Ok(()));
    assert_eq!(reloaded.recipes.len(), 0);
    assert_eq!(reloaded.files.len(), 0);

    // a second restart shows an empty store
    let empty = RecipeManager::load_all(reloaded.files.clone()).expect("empty store reloads");
    assert_eq!(empty.recipes.len(), 0);
}

#[test]
fn removing_an_absent_name_changes_nothing() {
    let mut m = RecipeManager::new();
    m.add(pancakes());
    let files_before = m.files.clone();
    assert_eq!(m.remove("waffles"), Err(RemoveError::NotFound));
    assert_eq!(m.recipes.len(), 1);
    assert_eq!(m.recipes[0], pancakes());
    assert_eq!(m.files, files_before);
}

#[test]
fn removal_matches_case_insensitively_and_first() {
    let mut m = RecipeManager::new();
    m.add(pancakes());
    let other = Recipe {
        name: "Toast".to_string(),
        description: "Crisp".to_string(),
        ingredients: vec![],
        steps: vec![],
    };
    m.add(other);
    assert_eq!(m.remove("PANCAKES"), Ok(()));
    assert_eq!(m.recipes.len(), 1);
    assert_eq!(m.recipes[0].name, "Toast");
    assert_eq!(m.files.len(), 1);
}

#[test]
fn colliding_add_overwrites_and_the_new_recipe_wins() {
    let mut m = RecipeManager::new();
    m.add(pancakes());
    let newer = Recipe {
        name: "PANCAKES".to_string(),
        description: "Thin and wide".to_string(),
        ingredients: vec![ingredient("flour", "1.5", Unit::Volume(Volume::Cup))],
        steps: vec!["Whisk".to_string()],
    };
    let outcome = m.add(newer);
    assert_eq!(outcome, AddOutcome::Replaced(0));
    // no second entry appeared, and remove-by-name finds the winner
    assert_eq!(m.recipes.len(), 1);
    assert_eq!(m.files.len(), 1);
    assert_eq!(m.recipes[0].name, "PANCAKES");
    assert_eq!(m.recipes[0].description, "Thin and wide");
    assert_eq!(m.remove("pancakes"), Ok(()));
    assert_eq!(m.recipes.len(), 0);
}

#[test]
fn lookup_is_case_insensitive() {
    let mut m = RecipeManager::new();
    m.add(pancakes());
    assert_eq!(m.lookup("pAnCaKeS"), Some(0));
    assert_eq!(m.lookup("toast"), None);
}

#[test]
fn loading_a_malformed_record_fails_with_its_index() {
    let good = vec![
        "A".to_string(),
        "B".to_string(),
        "0".to_string(),
        "0".to_string(),
    ];
    let bad = vec![
        "C".to_string(),
        "D".to_string(),
        "two".to_string(),
        "0".to_string(),
    ];
    let r = RecipeManager::load_all(vec![good, bad]);
    assert_eq!(r.err(), Some(LoadError::Malformed(1, MalformedRecord::BadCount)));
}

#[test]
fn loading_a_record_with_trailing_lines_fails() {
    let padded = vec![
        "A".to_string(),
        "B".to_string(),
        "0".to_string(),
        "0".to_string(),
        "stray".to_string(),
    ];
    let r = RecipeManager::load_all(vec![padded]);
    assert_eq!(r.err(), Some(LoadError::ExtraLines(0)));
}

#[test]
fn loading_duplicate_names_fails() {
    let a = vec![
        "Soup".to_string(),
        "Warm".to_string(),
        "0".to_string(),
        "0".to_string(),
    ];
    let b = vec![
        "SOUP".to_string(),
        "Also warm".to_string(),
        "0".to_string(),
        "0".to_string(),
    ];
    let r = RecipeManager::load_all(vec![a, b]);
    assert_eq!(r.err(), Some(LoadError::DuplicateName(1)));
}
