use recipes::recipe::{make_ingredient, make_recipe, Ingredient, Recipe};
use recipes::unit::{Unit, Volume};

#[test]
fn make_ingredient_accepts_a_clean_ingredient() {
    let i = make_ingredient("flour".to_string(), "2.0".to_string(), Unit::Volume(Volume::Cup))
        .expect("well-formed ingredient");
    assert_eq!(i.name, "flour");
    assert_eq!(i.quantity, "2.0");
    assert_eq!(i.unit, Unit::Volume(Volume::Cup));
}

#[test]
fn make_ingredient_rejects_bad_parts() {
    assert!(make_ingredient("".to_string(), "2".to_string(), Unit::Piece).is_none());
    assert!(make_ingredient("brown sugar".to_string(), "2".to_string(), Unit::Piece).is_none());
    assert!(make_ingredient("sugar".to_string(), "lots".to_string(), Unit::Piece).is_none());
}

#[test]
fn make_recipe_accepts_single_line_fields() {
    let r = make_recipe(
        "Toast".to_string(),
        "Crisp".to_string(),
        vec![Ingredient { name: "bread".to_string(), quantity: "1".to_string(), unit: Unit::Piece }],
        vec!["Toast it".to_string()],
    )
    .expect("well-formed recipe");
    assert_eq!(r.name, "Toast");
    assert_eq!(r.steps.len(), 1);
}

#[test]
fn make_recipe_rejects_embedded_line_breaks() {
    assert!(make_recipe("Two\nLines".to_string(), "d".to_string(), vec![], vec![]).is_none());
    assert!(make_recipe("Name".to_string(), "d\r".to_string(), vec![], vec![]).is_none());
    assert!(
        make_recipe("Name".to_string(), "d".to_string(), vec![], vec!["a\nb".to_string()])
            .is_none()
    );
}

#[test]
fn recipes_compare_by_all_fields() {
    let a = Recipe {
        name: "A".to_string(),
        description: "d".to_string(),
        ingredients: vec![],
        steps: vec!["s".to_string()],
    };
    let b = Recipe {
        name: "A".to_string(),
        description: "d".to_string(),
        ingredients: vec![],
        steps: vec!["s".to_string()],
    };
    let c = Recipe {
        name: "A".to_string(),
        description: "d".to_string(),
        ingredients: vec![],
        steps: vec!["other".to_string()],
    };
    assert_eq!(a, b);
    assert_ne!(a, c);
}
