//! The closed vocabulary of measurement units: canonical display names
//! and a case-insensitive, plural-tolerant parser.

use vstd::prelude::*;

use crate::text::lower_seq;

verus! {

/// Volume units.
#[derive(Clone, Copy, Debug, PartialEq, Eq, Structural)]
pub enum Volume {
    Cup,
    Ounce,
    Teaspoon,
    Tablespoon,
    Milliliter,
    Liter,
}

/// Weight units.
#[derive(Clone, Copy, Debug, PartialEq, Eq, Structural)]
pub enum Weight {
    Milligram,
    Gram,
    Decagram,
    Kilogram,
}

/// A measurement unit: a volume, a weight, or a bare piece count.
#[derive(Clone, Copy, Debug, PartialEq, Eq, Structural)]
pub enum Unit {
    Volume(Volume),
    Weight(Weight),
    Piece,
}

/// The canonical capitalized display name of a unit.
pub open spec fn display_unit_spec(u: Unit) -> Seq<char> {
    match u {
        Unit::Piece => "Piece"@,
        Unit::Volume(Volume::Cup) => "Cup"@,
        Unit::Volume(Volume::Ounce) => "Ounce"@,
        Unit::Volume(Volume::Teaspoon) => "Teaspoon"@,
        Unit::Volume(Volume::Tablespoon) => "Tablespoon"@,
        Unit::Volume(Volume::Milliliter) => "Milliliter"@,
        Unit::Volume(Volume::Liter) => "Liter"@,
        Unit::Weight(Weight::Milligram) => "Milligram"@,
        Unit::Weight(Weight::Gram) => "Gram"@,
        Unit::Weight(Weight::Decagram) => "Decagram"@,
        Unit::Weight(Weight::Kilogram) => "Kilogram"@,
    }
}

/// Renders a unit under its canonical display name.
pub fn display_unit(u: &Unit) -> (r: String)
    ensures
        r@ == display_unit_spec(*u),
{
    match u {
        Unit::Piece => String::from_str("Piece"),
        Unit::Volume(Volume::Cup) => String::from_str("Cup"),
        Unit::Volume(Volume::Ounce) => String::from_str("Ounce"),
        Unit::Volume(Volume::Teaspoon) => String::from_str("Teaspoon"),
        Unit::Volume(Volume::Tablespoon) => String::from_str("Tablespoon"),
        Unit::Volume(Volume::Milliliter) => String::from_str("Milliliter"),
        Unit::Volume(Volume::Liter) => String::from_str("Liter"),
        Unit::Weight(Weight::Milligram) => String::from_str("Milligram"),
        Unit::Weight(Weight::Gram) => String::from_str("Gram"),
        Unit::Weight(Weight::Decagram) => String::from_str("Decagram"),
        Unit::Weight(Weight::Kilogram) => String::from_str("Kilogram"),
    }
}

/// The unit a free-text token denotes: matching is case-insensitive and
/// accepts the singular and plural spelling of each display name.
pub open spec fn unit_of_token(t: Seq<char>) -> Option<Unit> {
    let l = lower_seq(t);
    if l == "piece"@ || l == "pieces"@ {
        Some(Unit::Piece)
    } else if l == "cup"@ || l == "cups"@ {
        Some(Unit::Volume(Volume::Cup))
    } else if l == "teaspoon"@ || l == "teaspoons"@ {
        Some(Unit::Volume(Volume::Teaspoon))
    } else if l == "tablespoon"@ || l == "tablespoons"@ {
        Some(Unit::Volume(Volume::Tablespoon))
    } else if l == "liter"@ || l == "liters"@ {
        Some(Unit::Volume(Volume::Liter))
    } else if l == "ounce"@ || l == "ounces"@ {
        Some(Unit::Volume(Volume::Ounce))
    } else if l == "milliliter"@ || l == "milliliters"@ {
        Some(Unit::Volume(Volume::Milliliter))
    } else if l == "gram"@ || l == "grams"@ {
        Some(Unit::Weight(Weight::Gram))
    } else if l == "milligram"@ || l == "milligrams"@ {
        Some(Unit::Weight(Weight::Milligram))
    } else if l == "decagram"@ || l == "decagrams"@ {
        Some(Unit::Weight(Weight::Decagram))
    } else if l == "kilogram"@ || l == "kilograms"@ {
        Some(Unit::Weight(Weight::Kilogram))
    } else {
        None
    }
}

/// Parses a unit name, tolerating any casing and plural spellings;
/// unknown names yield `None`.
pub fn string_to_unit(s: &str) -> (r: Option<Unit>)
    ensures
        r == unit_of_token(s@),
{
    let l = crate::text::to_lower(s);
    if l == String::from_str("piece") || l == String::from_str("pieces") {
        Some(Unit::Piece)
    } else if l == String::from_str("cup") || l == String::from_str("cups") {
        Some(Unit::Volume(Volume::Cup))
    } else if l == String::from_str("teaspoon") || l == String::from_str("teaspoons") {
        Some(Unit::Volume(Volume::Teaspoon))
    } else if l == String::from_str("tablespoon") || l == String::from_str("tablespoons") {
        Some(Unit::Volume(Volume::Tablespoon))
    } else if l == String::from_str("liter") || l == String::from_str("liters") {
        Some(Unit::Volume(Volume::Liter))
    } else if l == String::from_str("ounce") || l == String::from_str("ounces") {
        Some(Unit::Volume(Volume::Ounce))
    } else if l == String::from_str("milliliter") || l == String::from_str("milliliters") {
        Some(Unit::Volume(Volume::Milliliter))
    } else if l == String::from_str("gram") || l == String::from_str("grams") {
        Some(Unit::Weight(Weight::Gram))
    } else if l == String::from_str("milligram") || l == String::from_str("milligrams") {
        Some(Unit::Weight(Weight::Milligram))
    } else if l == String::from_str("decagram") || l == String::from_str("decagrams") {
        Some(Unit::Weight(Weight::Decagram))
    } else if l == String::from_str("kilogram") || l == String::from_str("kilograms") {
        Some(Unit::Weight(Weight::Kilogram))
    } else {
        None
    }
}

/// Law: parsing the lowercased display name of any unit — or the
/// display name as it stands, since the parser ignores case — returns
/// that same unit.
pub proof fn lemma_unit_round_trip(u: Unit)
    ensures
        unit_of_token(lower_seq(display_unit_spec(u))) == Some(u),
        unit_of_token(display_unit_spec(u)) == Some(u),
{
    reveal_strlit("Cup");
    reveal_strlit("Decagram");
    reveal_strlit("Gram");
    reveal_strlit("Kilogram");
    reveal_strlit("Liter");
    reveal_strlit("Milligram");
    reveal_strlit("Milliliter");
    reveal_strlit("Ounce");
    reveal_strlit("Piece");
    reveal_strlit("Tablespoon");
    reveal_strlit("Teaspoon");
    reveal_strlit("cup");
    reveal_strlit("cups");
    reveal_strlit("decagram");
    reveal_strlit("decagrams");
    reveal_strlit("gram");
    reveal_strlit("grams");
    reveal_strlit("kilogram");
    reveal_strlit("kilograms");
    reveal_strlit("liter");
    reveal_strlit("liters");
    reveal_strlit("milligram");
    reveal_strlit("milligrams");
    reveal_strlit("milliliter");
    reveal_strlit("milliliters");
    reveal_strlit("ounce");
    reveal_strlit("ounces");
    reveal_strlit("piece");
    reveal_strlit("pieces");
    reveal_strlit("tablespoon");
    reveal_strlit("tablespoons");
    reveal_strlit("teaspoon");
    reveal_strlit("teaspoons");
    assert("piece"@.len() == 5);
    assert("piece"@[0] == 'p');
    assert("pieces"@.len() == 6);
    assert("pieces"@[0] == 'p');
    assert("pieces"@[5] == 's');
    assert("cup"@.len() == 3);
    assert("cup"@[0] == 'c');
    assert("cups"@.len() == 4);
    assert("cups"@[0] == 'c');
    assert("teaspoon"@.len() == 8);
    assert("teaspoon"@[0] == 't');
    assert("teaspoon"@[5] == 'o');
    assert("teaspoons"@.len() == 9);
    assert("teaspoons"@[0] == 't');
    assert("teaspoons"@[5] == 'o');
    assert("tablespoon"@.len() == 10);
    assert("tablespoon"@[0] == 't');
    assert("tablespoon"@[5] == 's');
    assert("tablespoons"@.len() == 11);
    assert("tablespoons"@[0] == 't');
    assert("tablespoons"@[5] == 's');
    assert("liter"@.len() == 5);
    assert("liter"@[0] == 'l');
    assert("liters"@.len() == 6);
    assert("liters"@[0] == 'l');
    assert("liters"@[5] == 's');
    assert("ounce"@.len() == 5);
    assert("ounce"@[0] == 'o');
    assert("ounces"@.len() == 6);
    assert("ounces"@[0] == 'o');
    assert("ounces"@[5] == 's');
    assert("milliliter"@.len() == 10);
    assert("milliliter"@[0] == 'm');
    assert("milliliter"@[5] == 'l');
    assert("milliliters"@.len() == 11);
    assert("milliliters"@[0] == 'm');
    assert("milliliters"@[5] == 'l');
    assert("gram"@.len() == 4);
    assert("gram"@[0] == 'g');
    assert("grams"@.len() == 5);
    assert("grams"@[0] == 'g');
    assert("milligram"@.len() == 9);
    assert("milligram"@[0] == 'm');
    assert("milligram"@[5] == 'g');
    assert("milligrams"@.len() == 10);
    assert("milligrams"@[0] == 'm');
    assert("milligrams"@[5] == 'g');
    assert("decagram"@.len() == 8);
    assert("decagram"@[0] == 'd');
    assert("decagram"@[5] == 'r');
    assert("decagrams"@.len() == 9);
    assert("decagrams"@[0] == 'd');
    assert("decagrams"@[5] == 'r');
    assert("kilogram"@.len() == 8);
    assert("kilogram"@[0] == 'k');
    assert("kilogram"@[5] == 'r');
    assert("kilograms"@.len() == 9);
    assert("kilograms"@[0] == 'k');
    assert("kilograms"@[5] == 'r');
    match u {
        Unit::Piece => {
            assert(lower_seq("Piece"@) =~= "piece"@);
            assert(lower_seq("piece"@) =~= "piece"@);
        },
        Unit::Volume(Volume::Cup) => {
            assert(lower_seq("Cup"@) =~= "cup"@);
            assert(lower_seq("cup"@) =~= "cup"@);
        },
        Unit::Volume(Volume::Teaspoon) => {
            assert(lower_seq("Teaspoon"@) =~= "teaspoon"@);
            assert(lower_seq("teaspoon"@) =~= "teaspoon"@);
        },
        Unit::Volume(Volume::Tablespoon) => {
            assert(lower_seq("Tablespoon"@) =~= "tablespoon"@);
            assert(lower_seq("tablespoon"@) =~= "tablespoon"@);
        },
        Unit::Volume(Volume::Liter) => {
            assert(lower_seq("Liter"@) =~= "liter"@);
            assert(lower_seq("liter"@) =~= "liter"@);
        },
        Unit::Volume(Volume::Ounce) => {
            assert(lower_seq("Ounce"@) =~= "ounce"@);
            assert(lower_seq("ounce"@) =~= "ounce"@);
        },
        Unit::Volume(Volume::Milliliter) => {
            assert(lower_seq("Milliliter"@) =~= "milliliter"@);
            assert(lower_seq("milliliter"@) =~= "milliliter"@);
        },
        Unit::Weight(Weight::Gram) => {
            assert(lower_seq("Gram"@) =~= "gram"@);
            assert(lower_seq("gram"@) =~= "gram"@);
        },
        Unit::Weight(Weight::Milligram) => {
            assert(lower_seq("Milligram"@) =~= "milligram"@);
            assert(lower_seq("milligram"@) =~= "milligram"@);
        },
        Unit::Weight(Weight::Decagram) => {
            assert(lower_seq("Decagram"@) =~= "decagram"@);
            assert(lower_seq("decagram"@) =~= "decagram"@);
        },
        Unit::Weight(Weight::Kilogram) => {
            assert(lower_seq("Kilogram"@) =~= "kilogram"@);
            assert(lower_seq("kilogram"@) =~= "kilogram"@);
        },
    }
}

/// Law: each accepted plural spelling parses to the same unit as its
/// singular form.
pub proof fn lemma_unit_plurals()
    ensures
        unit_of_token("pieces"@) == unit_of_token("piece"@),
        unit_of_token("cups"@) == unit_of_token("cup"@),
        unit_of_token("teaspoons"@) == unit_of_token("teaspoon"@),
        unit_of_token("tablespoons"@) == unit_of_token("tablespoon"@),
        unit_of_token("liters"@) == unit_of_token("liter"@),
        unit_of_token("ounces"@) == unit_of_token("ounce"@),
        unit_of_token("milliliters"@) == unit_of_token("milliliter"@),
        unit_of_token("grams"@) == unit_of_token("gram"@),
        unit_of_token("milligrams"@) == unit_of_token("milligram"@),
        unit_of_token("decagrams"@) == unit_of_token("decagram"@),
        unit_of_token("kilograms"@) == unit_of_token("kilogram"@),
{
    reveal_strlit("cup");
    reveal_strlit("cups");
    reveal_strlit("decagram");
    reveal_strlit("decagrams");
    reveal_strlit("gram");
    reveal_strlit("grams");
    reveal_strlit("kilogram");
    reveal_strlit("kilograms");
    reveal_strlit("liter");
    reveal_strlit("liters");
    reveal_strlit("milligram");
    reveal_strlit("milligrams");
    reveal_strlit("milliliter");
    reveal_strlit("milliliters");
    reveal_strlit("ounce");
    reveal_strlit("ounces");
    reveal_strlit("piece");
    reveal_strlit("pieces");
    reveal_strlit("tablespoon");
    reveal_strlit("tablespoons");
    reveal_strlit("teaspoon");
    reveal_strlit("teaspoons");
    assert("piece"@.len() == 5);
    assert("piece"@[0] == 'p');
    assert("pieces"@.len() == 6);
    assert("pieces"@[0] == 'p');
    assert("pieces"@[5] == 's');
    assert("cup"@.len() == 3);
    assert("cup"@[0] == 'c');
    assert("cups"@.len() == 4);
    assert("cups"@[0] == 'c');
    assert("teaspoon"@.len() == 8);
    assert("teaspoon"@[0] == 't');
    assert("teaspoon"@[5] == 'o');
    assert("teaspoons"@.len() == 9);
    assert("teaspoons"@[0] == 't');
    assert("teaspoons"@[5] == 'o');
    assert("tablespoon"@.len() == 10);
    assert("tablespoon"@[0] == 't');
    assert("tablespoon"@[5] == 's');
    assert("tablespoons"@.len() == 11);
    assert("tablespoons"@[0] == 't');
    assert("tablespoons"@[5] == 's');
    assert("liter"@.len() == 5);
    assert("liter"@[0] == 'l');
    assert("liters"@.len() == 6);
    assert("liters"@[0] == 'l');
    assert("liters"@[5] == 's');
    assert("ounce"@.len() == 5);
    assert("ounce"@[0] == 'o');
    assert("ounces"@.len() == 6);
    assert("ounces"@[0] == 'o');
    assert("ounces"@[5] == 's');
    assert("milliliter"@.len() == 10);
    assert("milliliter"@[0] == 'm');
    assert("milliliter"@[5] == 'l');
    assert("milliliters"@.len() == 11);
    assert("milliliters"@[0] == 'm');
    assert("milliliters"@[5] == 'l');
    assert("gram"@.len() == 4);
    assert("gram"@[0] == 'g');
    assert("grams"@.len() == 5);
    assert("grams"@[0] == 'g');
    assert("milligram"@.len() == 9);
    assert("milligram"@[0] == 'm');
    assert("milligram"@[5] == 'g');
    assert("milligrams"@.len() == 10);
    assert("milligrams"@[0] == 'm');
    assert("milligrams"@[5] == 'g');
    assert("decagram"@.len() == 8);
    assert("decagram"@[0] == 'd');
    assert("decagram"@[5] == 'r');
    assert("decagrams"@.len() == 9);
    assert("decagrams"@[0] == 'd');
    assert("decagrams"@[5] == 'r');
    assert("kilogram"@.len() == 8);
    assert("kilogram"@[0] == 'k');
    assert("kilogram"@[5] == 'r');
    assert("kilograms"@.len() == 9);
    assert("kilograms"@[0] == 'k');
    assert("kilograms"@[5] == 'r');
    assert(lower_seq("piece"@) =~= "piece"@);
    assert(lower_seq("pieces"@) =~= "pieces"@);
    assert(lower_seq("cup"@) =~= "cup"@);
    assert(lower_seq("cups"@) =~= "cups"@);
    assert(lower_seq("teaspoon"@) =~= "teaspoon"@);
    assert(lower_seq("teaspoons"@) =~= "teaspoons"@);
    assert(lower_seq("tablespoon"@) =~= "tablespoon"@);
    assert(lower_seq("tablespoons"@) =~= "tablespoons"@);
    assert(lower_seq("liter"@) =~= "liter"@);
    assert(lower_seq("liters"@) =~= "liters"@);
    assert(lower_seq("ounce"@) =~= "ounce"@);
    assert(lower_seq("ounces"@) =~= "ounces"@);
    assert(lower_seq("milliliter"@) =~= "milliliter"@);
    assert(lower_seq("milliliters"@) =~= "milliliters"@);
    assert(lower_seq("gram"@) =~= "gram"@);
    assert(lower_seq("grams"@) =~= "grams"@);
    assert(lower_seq("milligram"@) =~= "milligram"@);
    assert(lower_seq("milligrams"@) =~= "milligrams"@);
    assert(lower_seq("decagram"@) =~= "decagram"@);
    assert(lower_seq("decagrams"@) =~= "decagrams"@);
    assert(lower_seq("kilogram"@) =~= "kilogram"@);
    assert(lower_seq("kilograms"@) =~= "kilograms"@);
    assert(unit_of_token("pieces"@) == Some(Unit::Piece));
    assert(unit_of_token("piece"@) == Some(Unit::Piece));
    assert(unit_of_token("cups"@) == Some(Unit::Volume(Volume::Cup)));
    assert(unit_of_token("cup"@) == Some(Unit::Volume(Volume::Cup)));
    assert(unit_of_token("teaspoons"@) == Some(Unit::Volume(Volume::Teaspoon)));
    assert(unit_of_token("teaspoon"@) == Some(Unit::Volume(Volume::Teaspoon)));
    assert(unit_of_token("tablespoons"@) == Some(Unit::Volume(Volume::Tablespoon)));
    assert(unit_of_token("tablespoon"@) == Some(Unit::Volume(Volume::Tablespoon)));
    assert(unit_of_token("liters"@) == Some(Unit::Volume(Volume::Liter)));
    assert(unit_of_token("liter"@) == Some(Unit::Volume(Volume::Liter)));
    assert(unit_of_token("ounces"@) == Some(Unit::Volume(Volume::Ounce)));
    assert(unit_of_token("ounce"@) == Some(Unit::Volume(Volume::Ounce)));
    assert(unit_of_token("milliliters"@) == Some(Unit::Volume(Volume::Milliliter)));
    assert(unit_of_token("milliliter"@) == Some(Unit::Volume(Volume::Milliliter)));
    assert(unit_of_token("grams"@) == Some(Unit::Weight(Weight::Gram)));
    assert(unit_of_token("gram"@) == Some(Unit::Weight(Weight::Gram)));
    assert(unit_of_token("milligrams"@) == Some(Unit::Weight(Weight::Milligram)));
    assert(unit_of_token("milligram"@) == Some(Unit::Weight(Weight::Milligram)));
    assert(unit_of_token("decagrams"@) == Some(Unit::Weight(Weight::Decagram)));
    assert(unit_of_token("decagram"@) == Some(Unit::Weight(Weight::Decagram)));
    assert(unit_of_token("kilograms"@) == Some(Unit::Weight(Weight::Kilogram)));
    assert(unit_of_token("kilogram"@) == Some(Unit::Weight(Weight::Kilogram)));
}


} // verus!
