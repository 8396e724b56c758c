use recipes::codec::{decode, encode, ingredient_line, parse_ingredient_line, MalformedRecord};
use recipes::recipe::{Ingredient, Recipe};
use recipes::unit::{Unit, Volume};

fn ingredient(name: &str, quantity: &str, unit: Unit) -> Ingredient {
    Ingredient { name: name.to_string(), quantity: quantity.to_string(), unit }
}

fn pancakes() -> Recipe {
    Recipe {
        name: "Pancakes".to_string(),
        description: "Fluffy".to_string(),
        ingredients: vec![
            ingredient("flour", "2.0", Unit::Volume(Volume::Cup)),
            ingredient("egg", "1.0", Unit::Piece),
        ],
        steps: vec!["Mix".to_string(), "Cook".to_string()],
    }
}

#[test]
fn encode_produces_the_documented_lines() {
    let lines = encode(&pancakes());
    assert_eq!(
        lines,
        vec![
            "Pancakes".to_string(),
            "Fluffy".to_string(),
            "2".to_string(),
            "flour 2.0 Cup".to_string(),
            "egg 1.0 Piece".to_string(),
            "2".to_string(),
            "Mix".to_string(),
            "Cook".to_string(),
        ]
    );
}

#[test]
fn round_trip_returns_the_same_recipe() {
    let r = pancakes();
    let lines = encode(&r);
    let (back, end) = decode(&lines, 0).expect("an encoded recipe must decode");
    assert_eq!(end, lines.len());
    assert_eq!(back, r);
}

#[test]
fn round_trip_of_an_empty_recipe() {
    let r = Recipe {
        name: "Water".to_string(),
        description: "Just water".to_string(),
        ingredients: vec![],
        steps: vec![],
    };
    let lines = encode(&r);
    assert_eq!(lines, vec!["Water", "Just water", "0", "0"]);
    let (back, end) = decode(&lines, 0).expect("an encoded recipe must decode");
    assert_eq!(end, 4);
    assert_eq!(back, r);
}

#[test]
fn two_records_decode_in_sequence_from_one_ledger() {
    let a = pancakes();
    let b = Recipe {
        name: "Toast".to_string(),
        description: "Crisp".to_string(),
        ingredients: vec![ingredient("bread", "1", Unit::Piece)],
        steps: vec!["Toast it".to_string()],
    };
    let mut lines = encode(&a);
    lines.extend(encode(&b));
    let (first, mid) = decode(&lines, 0).expect("first record");
    let (second, end) = decode(&lines, mid).expect("second record");
    assert_eq!(first, a);
    assert_eq!(second, b);
    assert_eq!(end, lines.len());
}

#[test]
fn ingredient_line_renders_three_tokens() {
    let i = ingredient("flour", "2.0", Unit::Volume(Volume::Cup));
    assert_eq!(ingredient_line(&i), "flour 2.0 Cup");
}

#[test]
fn ingredient_line_with_two_tokens_is_malformed() {
    assert_eq!(parse_ingredient_line("flour 2.0"), Err(MalformedRecord::WrongTokenCount));
}

#[test]
fn ingredient_line_with_four_tokens_is_malformed() {
    assert_eq!(
        parse_ingredient_line("flour 2.0 Cup extra"),
        Err(MalformedRecord::WrongTokenCount)
    );
}

#[test]
fn ingredient_line_with_non_numeric_quantity_is_malformed() {
    assert_eq!(parse_ingredient_line("flour abc Cup"), Err(MalformedRecord::BadQuantity));
}

#[test]
fn ingredient_line_with_unknown_unit_is_malformed() {
    assert_eq!(parse_ingredient_line("flour 2.0 bucket"), Err(MalformedRecord::UnknownUnit));
}

#[test]
fn ingredient_line_tolerates_whitespace_runs_and_case() {
    let i = parse_ingredient_line("  flour \t 2.5   CUPS ").expect("valid line");
    assert_eq!(i.name, "flour");
    assert_eq!(i.quantity, "2.5");
    assert_eq!(i.unit, Unit::Volume(Volume::Cup));
}

#[test]
fn truncated_records_are_rejected() {
    assert_eq!(
        decode(&vec!["OnlyName".to_string()], 0),
        Err(MalformedRecord::Truncated)
    );
    // one ingredient declared, none present
    let lines = vec!["A".to_string(), "B".to_string(), "1".to_string()];
    assert_eq!(decode(&lines, 0), Err(MalformedRecord::Truncated));
    // two steps declared, one present
    let lines = vec![
        "A".to_string(),
        "B".to_string(),
        "0".to_string(),
        "2".to_string(),
        "only one".to_string(),
    ];
    assert_eq!(decode(&lines, 0), Err(MalformedRecord::Truncated));
}

#[test]
fn non_numeric_counts_are_rejected() {
    let lines = vec!["A".to_string(), "B".to_string(), "two".to_string(), "0".to_string()];
    assert_eq!(decode(&lines, 0), Err(MalformedRecord::BadCount));
    let lines = vec!["A".to_string(), "B".to_string(), "0".to_string(), "-1".to_string()];
    assert_eq!(decode(&lines, 0), Err(MalformedRecord::BadCount));
}

#[test]
fn malformed_ingredient_lines_abort_the_record() {
    let lines = vec![
        "A".to_string(),
        "B".to_string(),
        "1".to_string(),
        "flour 2.0".to_string(),
        "0".to_string(),
    ];
    assert_eq!(decode(&lines, 0), Err(MalformedRecord::WrongTokenCount));
}
