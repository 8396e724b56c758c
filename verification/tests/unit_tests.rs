use recipes::unit::{display_unit, string_to_unit, Unit, Volume, Weight};

fn all_units() -> Vec<Unit> {
    vec![
        Unit::Piece,
        Unit::Volume(Volume::Cup),
        Unit::Volume(Volume::Ounce),
        Unit::Volume(Volume::Teaspoon),
        Unit::Volume(Volume::Tablespoon),
        Unit::Volume(Volume::Milliliter),
        Unit::Volume(Volume::Liter),
        Unit::Weight(Weight::Milligram),
        Unit::Weight(Weight::Gram),
        Unit::Weight(Weight::Decagram),
        Unit::Weight(Weight::Kilogram),
    ]
}

#[test]
fn display_names_are_canonical() {
    assert_eq!(display_unit(&Unit::Piece), "Piece");
    assert_eq!(display_unit(&Unit::Volume(Volume::Cup)), "Cup");
    assert_eq!(display_unit(&Unit::Volume(Volume::Ounce)), "Ounce");
    assert_eq!(display_unit(&Unit::Volume(Volume::Teaspoon)), "Teaspoon");
    assert_eq!(display_unit(&Unit::Volume(Volume::Tablespoon)), "Tablespoon");
    assert_eq!(display_unit(&Unit::Volume(Volume::Milliliter)), "Milliliter");
    assert_eq!(display_unit(&Unit::Volume(Volume::Liter)), "Liter");
    assert_eq!(display_unit(&Unit::Weight(Weight::Milligram)), "Milligram");
    assert_eq!(display_unit(&Unit::Weight(Weight::Gram)), "Gram");
    assert_eq!(display_unit(&Unit::Weight(Weight::Decagram)), "Decagram");
    assert_eq!(display_unit(&Unit::Weight(Weight::Kilogram)), "Kilogram");
}

#[test]
fn every_display_name_parses_back() {
    for u in all_units() {
        let shown = display_unit(&u);
        assert_eq!(string_to_unit(&shown.to_lowercase()), Some(u));
        assert_eq!(string_to_unit(&shown), Some(u));
    }
}

#[test]
fn plural_spellings_match_singular() {
    let pairs = [
        ("piece", "pieces"),
        ("cup", "cups"),
        ("teaspoon", "teaspoons"),
        ("tablespoon", "tablespoons"),
        ("liter", "liters"),
        ("ounce", "ounces"),
        ("milliliter", "milliliters"),
        ("gram", "grams"),
        ("milligram", "milligrams"),
        ("decagram", "decagrams"),
        ("kilogram", "kilograms"),
    ];
    for (singular, plural) in pairs {
        let s = string_to_unit(singular);
        let p = string_to_unit(plural);
        assert!(s.is_some());
        assert_eq!(s, p);
    }
}

#[test]
fn parser_ignores_case() {
    assert_eq!(string_to_unit("CUPS"), Some(Unit::Volume(Volume::Cup)));
    assert_eq!(string_to_unit("KiLoGrAm"), Some(Unit::Weight(Weight::Kilogram)));
    assert_eq!(string_to_unit("PIECE"), Some(Unit::Piece));
}

#[test]
fn unknown_unit_names_are_rejected() {
    assert_eq!(string_to_unit("bucket"), None);
    assert_eq!(string_to_unit(""), None);
    assert_eq!(string_to_unit("cupss"), None);
    assert_eq!(string_to_unit("gramme"), None);
}
