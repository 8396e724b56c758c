//! The textual record format: a recipe is encoded as its name line,
//! its description line, an ingredient count, one line per ingredient
//! (`name quantity unit`, whitespace-separated), a step count, and one
//! line per step.  Decoding is exact: a wrong token count, a
//! non-numeric count or quantity, an unknown unit, or fewer lines than
//! declared is a structural error, never a partial result.

use vstd::prelude::*;

use crate::recipe::{ingredient_wf, recipe_wf, Ingredient, IngredientV, Recipe, RecipeV};
use crate::text::{
    dec_digits, is_quantity, is_quantity_token, is_space, join_lines_spec, lemma_dec_digits,
    lemma_lines_round_trip, lemma_tokens_clean, lemma_tokens_space, lemma_tokens_word, parse_u32,
    parse_u32_spec, split_lines_spec, split_tokens, tokens, u32_to_string,
};
use crate::unit::{
    display_unit, display_unit_spec, lemma_unit_round_trip, string_to_unit, unit_of_token, Unit,
};

verus! {

/// The structural ways a record can fail to decode.
#[derive(Clone, Copy, Debug, PartialEq, Eq, Structural)]
pub enum MalformedRecord {
    /// The stream ends before the lines a header or a count declares.
    Truncated,
    /// A count line is not a plain decimal number (or does not fit).
    BadCount,
    /// An ingredient line does not have exactly three tokens.
    WrongTokenCount,
    /// An ingredient quantity is not a decimal literal.
    BadQuantity,
    /// An ingredient unit is not in the vocabulary.
    UnknownUnit,
}

/// The encoded form of one ingredient: its three tokens separated by
/// single spaces.
pub open spec fn ingredient_line_spec(i: IngredientV) -> Seq<char> {
    i.name + seq![' '] + i.quantity + seq![' '] + display_unit_spec(i.unit)
}

/// What an ingredient line means: exactly three whitespace-separated
/// tokens — a name, a decimal quantity, and a known unit.
pub open spec fn ingredient_of_line(line: Seq<char>) -> Result<IngredientV, MalformedRecord> {
    let ts = tokens(line);
    if ts.len() != 3 {
        Err(MalformedRecord::WrongTokenCount)
    } else if !is_quantity_token(ts[1]) {
        Err(MalformedRecord::BadQuantity)
    } else if unit_of_token(ts[2]) is None {
        Err(MalformedRecord::UnknownUnit)
    } else {
        Ok(IngredientV { name: ts[0], quantity: ts[1], unit: unit_of_token(ts[2])->0 })
    }
}

/// Renders one ingredient as its record line.
pub fn ingredient_line(i: &Ingredient) -> (r: String)
    ensures
        r@ == ingredient_line_spec(i@),
{
    let mut s = String::from_str(i.name.as_str());
    s.append(" ");
    s.append(i.quantity.as_str());
    s.append(" ");
    let d = display_unit(&i.unit);
    s.append(d.as_str());
    proof {
        reveal_strlit(" ");
        assert(" "@ =~= seq![' ']);
        assert(s@ =~= ingredient_line_spec(i@));
    }
    s
}

/// Parses one ingredient line; the error says what is structurally
/// wrong, and nothing is produced on failure.
pub fn parse_ingredient_line(s: &str) -> (r: Result<Ingredient, MalformedRecord>)
    ensures
        match r {
            Ok(i) => ingredient_of_line(s@) == Ok::<IngredientV, MalformedRecord>(i@)
                && ingredient_wf(i@),
            Err(e) => ingredient_of_line(s@) == Err::<IngredientV, MalformedRecord>(e),
        },
{
    let ts = split_tokens(s);
    if ts.len() != 3 {
        return Err(MalformedRecord::WrongTokenCount);
    }
    let name = ts[0].clone();
    let quantity = ts[1].clone();
    if !is_quantity(quantity.as_str()) {
        assert(!is_quantity_token(tokens(s@)[1]));
        return Err(MalformedRecord::BadQuantity);
    }
    match string_to_unit(ts[2].as_str()) {
        None => {
            assert(unit_of_token(tokens(s@)[2]) is None);
            Err(MalformedRecord::UnknownUnit)
        },
        Some(unit) => {
            let i = Ingredient { name, quantity, unit };
            proof {
                lemma_tokens_clean(s@);
                assert(i@ =~= (IngredientV {
                    name: tokens(s@)[0],
                    quantity: tokens(s@)[1],
                    unit: unit_of_token(tokens(s@)[2])->0,
                }));
            }
            Ok(i)
        },
    }
}

/// The encoded lines of a whole recipe.
pub open spec fn encode_spec(r: RecipeV) -> Seq<Seq<char>> {
    seq![r.name, r.description, dec_digits(r.ingredients.len() as int)] + Seq::new(
        r.ingredients.len(),
        |i: int| ingredient_line_spec(r.ingredients[i]),
    ) + seq![dec_digits(r.steps.len() as int)] + r.steps
}

/// Encodes a recipe as its record lines.
pub fn encode(r: &Recipe) -> (out: Vec<String>)
    requires
        recipe_wf(r@),
    ensures
        out.deep_view() == encode_spec(r@),
{
    let mut out: Vec<String> = Vec::new();
    out.push(String::from_str(r.name.as_str()));
    out.push(String::from_str(r.description.as_str()));
    out.push(u32_to_string(r.ingredients.len() as u32));
    let mut i: usize = 0;
    while i < r.ingredients.len()
        invariant
            i <= r.ingredients.len(),
            r.ingredients.len() <= u32::MAX,
            out.deep_view() =~= seq![r@.name, r@.description, dec_digits(
                r@.ingredients.len() as int,
            )] + Seq::new(i as nat, |k: int| ingredient_line_spec(r@.ingredients[k])),
        decreases r.ingredients.len() - i,
    {
        let ghost prev = out.deep_view();
        let line = ingredient_line(&r.ingredients[i]);
        out.push(line);
        proof {
            assert(out.deep_view() =~= prev.push(line@));
            assert(out.deep_view() =~= seq![r@.name, r@.description, dec_digits(
                r@.ingredients.len() as int,
            )] + Seq::new((i + 1) as nat, |k: int| ingredient_line_spec(r@.ingredients[k])));
        }
        i = i + 1;
    }
    let ghost mid = out.deep_view();
    out.push(u32_to_string(r.steps.len() as u32));
    proof {
        assert(out.deep_view() =~= mid.push(dec_digits(r@.steps.len() as int)));
        assert(r@.steps.take(0) =~= Seq::<Seq<char>>::empty());
        assert(out.deep_view() =~= seq![r@.name, r@.description, dec_digits(
            r@.ingredients.len() as int,
        )] + Seq::new(r@.ingredients.len(), |k: int| ingredient_line_spec(r@.ingredients[k]))
            + seq![dec_digits(r@.steps.len() as int)] + r@.steps.take(0));
    }
    let mut j: usize = 0;
    while j < r.steps.len()
        invariant
            j <= r.steps.len(),
            r.steps.len() <= u32::MAX,
            r.ingredients.len() <= u32::MAX,
            out.deep_view() =~= seq![r@.name, r@.description, dec_digits(
                r@.ingredients.len() as int,
            )] + Seq::new(r@.ingredients.len(), |k: int| ingredient_line_spec(r@.ingredients[k]))
                + seq![dec_digits(r@.steps.len() as int)] + r@.steps.take(j as int),
        decreases r.steps.len() - j,
    {
        let ghost prev = out.deep_view();
        out.push(String::from_str(r.steps[j].as_str()));
        proof {
            assert(out.deep_view() =~= prev.push(r@.steps[j as int]));
            assert(r@.steps.take(j as int).push(r@.steps[j as int]) =~= r@.steps.take(j + 1));
            assert(out.deep_view() =~= seq![r@.name, r@.description, dec_digits(
                r@.ingredients.len() as int,
            )] + Seq::new(r@.ingredients.len(), |k: int| ingredient_line_spec(r@.ingredients[k]))
                + seq![dec_digits(r@.steps.len() as int)] + r@.steps.take(j + 1));
        }
        j = j + 1;
    }
    proof {
        assert(r@.steps.take(r@.steps.len() as int) =~= r@.steps);
        assert(out.deep_view() =~= encode_spec(r@));
    }
    out
}

/// Meaning of `n` consecutive ingredient lines starting at `start`:
/// the first structural error aborts the whole decode.
pub open spec fn decode_ingredients(lines: Seq<Seq<char>>, start: int, n: int) -> Result<
    Seq<IngredientV>,
    MalformedRecord,
>
    decreases n,
{
    if n <= 0 {
        Ok(Seq::empty())
    } else {
        match ingredient_of_line(lines[start]) {
            Err(e) => Err(e),
            Ok(i) => match decode_ingredients(lines, start + 1, n - 1) {
                Err(e) => Err(e),
                Ok(rest) => Ok(seq![i] + rest),
            },
        }
    }
}

/// Meaning of one record read at `start`: on success, the decoded
/// recipe together with the index of the first line after the record.
pub open spec fn decode_spec(lines: Seq<Seq<char>>, start: int) -> Result<
    (RecipeV, int),
    MalformedRecord,
> {
    if start + 3 > lines.len() {
        Err(MalformedRecord::Truncated)
    } else {
        match parse_u32_spec(lines[start + 2]) {
            None => Err(MalformedRecord::BadCount),
            Some(n) => {
                if start + 3 + n + 1 > lines.len() {
                    Err(MalformedRecord::Truncated)
                } else {
                    match decode_ingredients(lines, start + 3, n as int) {
                        Err(e) => Err(e),
                        Ok(ings) => match parse_u32_spec(lines[start + 3 + n]) {
                            None => Err(MalformedRecord::BadCount),
                            Some(m) => {
                                if start + 4 + n + m > lines.len() {
                                    Err(MalformedRecord::Truncated)
                                } else {
                                    Ok(
                                        (
                                            RecipeV {
                                                name: lines[start],
                                                description: lines[start + 1],
                                                ingredients: ings,
                                                steps: lines.subrange(
                                                    start + 4 + n,
                                                    start + 4 + n + m,
                                                ),
                                            },
                                            start + 4 + n + m,
                                        ),
                                    )
                                }
                            },
                        },
                    }
                }
            },
        }
    }
}

/// Decodes one record from `lines` starting at line `start`, consuming
/// exactly the lines of that record; `end` is the index of the first
/// line after it, so repeated calls walk a ledger of records.
pub fn decode(lines: &Vec<String>, start: usize) -> (r: Result<(Recipe, usize), MalformedRecord>)
    ensures
        match r {
            Ok((rec, end)) => decode_spec(lines.deep_view(), start as int) == Ok::<
                (RecipeV, int),
                MalformedRecord,
            >((rec@, end as int)),
            Err(e) => decode_spec(lines.deep_view(), start as int) == Err::<
                (RecipeV, int),
                MalformedRecord,
            >(e),
        },
{
    let ghost ld = lines.deep_view();
    let len = lines.len();
    proof {
        assert(ld.len() == len);
    }
    if len < 3 || start > len - 3 {
        return Err(MalformedRecord::Truncated);
    }
    let name = lines[start].clone();
    let description = lines[start + 1].clone();
    let n: u32 = match parse_u32(lines[start + 2].as_str()) {
        None => {
            return Err(MalformedRecord::BadCount);
        },
        Some(n) => n,
    };
    let nn = n as usize;
    if ((len - (start + 3)) as u64) < (n as u64) + 1 {
        return Err(MalformedRecord::Truncated);
    }
    let mut ings: Vec<Ingredient> = Vec::new();
    let mut i: usize = 0;
    proof {
        assert(ings.deep_view() + Seq::<IngredientV>::empty() =~= ings.deep_view());
    }
    while i < nn
        invariant
            i <= nn,
            nn == n as int,
            ld == lines.deep_view(),
            ld.len() == lines.len(),
            start + 3 + nn < lines.len(),
            parse_u32_spec(ld[start as int + 2]) == Some(n),
            ings.deep_view().len() == i,
            decode_ingredients(ld, start + 3, n as int) == (match decode_ingredients(
                ld,
                start + 3 + i,
                n as int - i,
            ) {
                Err(e) => Err::<Seq<IngredientV>, MalformedRecord>(e),
                Ok(rest) => Ok::<Seq<IngredientV>, MalformedRecord>(ings.deep_view() + rest),
            }),
        decreases nn - i,
    {
        match parse_ingredient_line(lines[start + 3 + i].as_str()) {
            Err(e) => {
                return Err(e);
            },
            Ok(ing) => {
                let ghost prev = ings.deep_view();
                ings.push(ing);
                proof {
                    assert(ings.deep_view() =~= prev.push(ing@));
                    if decode_ingredients(ld, start + 3 + i + 1, n as int - i - 1) is Ok {
                        let rest = decode_ingredients(ld, start + 3 + i + 1, n as int - i - 1)->Ok_0;
                        assert(prev.push(ing@) + rest =~= prev + (seq![ing@] + rest));
                    }
                }
            },
        }
        i = i + 1;
    }
    let m: u32 = match parse_u32(lines[start + 3 + nn].as_str()) {
        None => {
            return Err(MalformedRecord::BadCount);
        },
        Some(m) => m,
    };
    let mm = m as usize;
    if ((len - (start + 4 + nn)) as u64) < (m as u64) {
        return Err(MalformedRecord::Truncated);
    }
    let mut steps: Vec<String> = Vec::new();
    let mut j: usize = 0;
    while j < mm
        invariant
            j <= mm,
            ld == lines.deep_view(),
            ld.len() == lines.len(),
            start + 4 + nn + mm <= lines.len(),
            steps.deep_view() =~= ld.subrange(start + 4 + nn, start + 4 + nn + j),
        decreases mm - j,
    {
        let ghost prev = steps.deep_view();
        steps.push(lines[start + 4 + nn + j].clone());
        proof {
            assert(steps.deep_view() =~= prev.push(ld[start + 4 + nn + j]));
            assert(steps.deep_view() =~= ld.subrange(start + 4 + nn, start + 4 + nn + j + 1));
        }
        j = j + 1;
    }
    let rec = Recipe { name, description, ingredients: ings, steps };
    let end = start + 4 + nn + mm;
    proof {
        assert(decode_ingredients(ld, start + 3 + n as int, 0) == Ok::<
            Seq<IngredientV>,
            MalformedRecord,
        >(Seq::<IngredientV>::empty()));
        assert(ings.deep_view() + Seq::<IngredientV>::empty() =~= ings.deep_view());
        assert(rec@ =~= (RecipeV {
            name: ld[start as int],
            description: ld[start as int + 1],
            ingredients: ings.deep_view(),
            steps: ld.subrange(start + 4 + n as int, start + 4 + n as int + m as int),
        }));
    }
    Ok((rec, end))
}

/// Every display name is non-empty and free of whitespace, so it is a
/// single token on an ingredient line.
proof fn lemma_display_unit_clean(u: Unit)
    ensures
        display_unit_spec(u).len() > 0,
        forall|k: int| 0 <= k < display_unit_spec(u).len() ==> !is_space(display_unit_spec(u)[k]),
{
    reveal_strlit("Piece");
    reveal_strlit("Cup");
    reveal_strlit("Ounce");
    reveal_strlit("Teaspoon");
    reveal_strlit("Tablespoon");
    reveal_strlit("Milliliter");
    reveal_strlit("Liter");
    reveal_strlit("Milligram");
    reveal_strlit("Gram");
    reveal_strlit("Decagram");
    reveal_strlit("Kilogram");
}

/// A quantity literal never holds whitespace, so it is a single token.
proof fn lemma_quantity_nonspace(q: Seq<char>)
    requires
        is_quantity_token(q),
    ensures
        q.len() > 0,
        forall|k: int| 0 <= k < q.len() ==> !is_space(q[k]),
{
    let b = crate::text::quantity_body(q);
    assert forall|k: int| 0 <= k < q.len() implies !is_space(q[k]) by {
        if q.len() > 0 && (q[0] == '-' || q[0] == '+') {
            if k == 0 {
            } else {
                assert(q[k] == b[k - 1]);
                assert(crate::text::is_digit(b[k - 1]) || b[k - 1] == '.');
            }
        } else {
            assert(q[k] == b[k]);
            assert(crate::text::is_digit(b[k]) || b[k] == '.');
        }
    }
}

/// Law: an encoded ingredient line decodes to the ingredient it came
/// from.
pub proof fn lemma_ingredient_line_round_trip(i: IngredientV)
    requires
        ingredient_wf(i),
    ensures
        ingredient_of_line(ingredient_line_spec(i)) == Ok::<IngredientV, MalformedRecord>(i),
{
    let d = display_unit_spec(i.unit);
    let line = ingredient_line_spec(i);
    lemma_display_unit_clean(i.unit);
    lemma_quantity_nonspace(i.quantity);
    lemma_unit_round_trip(i.unit);
    // first token: the name
    let rest1 = seq![' '] + i.quantity + seq![' '] + d;
    assert(line =~= i.name + rest1);
    assert(forall|k: int| 0 <= k < i.name.len() ==> line[k] == i.name[k]);
    assert(line[i.name.len() as int] == ' ');
    lemma_tokens_word(line, i.name.len() as int);
    assert(line.take(i.name.len() as int) =~= i.name);
    assert(line.skip(i.name.len() as int) =~= rest1);
    // the separating space
    lemma_tokens_space(rest1);
    let rest2 = i.quantity + seq![' '] + d;
    assert(rest1.drop_first() =~= rest2);
    // second token: the quantity
    assert(forall|k: int| 0 <= k < i.quantity.len() ==> rest2[k] == i.quantity[k]);
    assert(rest2[i.quantity.len() as int] == ' ');
    lemma_tokens_word(rest2, i.quantity.len() as int);
    assert(rest2.take(i.quantity.len() as int) =~= i.quantity);
    let rest3 = seq![' '] + d;
    assert(rest2.skip(i.quantity.len() as int) =~= rest3);
    // the separating space
    lemma_tokens_space(rest3);
    assert(rest3.drop_first() =~= d);
    // third token: the unit display name
    assert(forall|k: int| 0 <= k < d.len() ==> d[k] == d[k]);
    lemma_tokens_word(d, d.len() as int);
    assert(d.take(d.len() as int) =~= d);
    assert(d.skip(d.len() as int) =~= Seq::<char>::empty());
    assert(tokens(Seq::<char>::empty()) =~= Seq::<Seq<char>>::empty());
    assert(tokens(line) =~= seq![i.name, i.quantity, d]);
    assert(unit_of_token(d) == Some(i.unit));
    assert(ingredient_of_line(line) == Ok::<IngredientV, MalformedRecord>(IngredientV {
        name: i.name,
        quantity: i.quantity,
        unit: i.unit,
    }));
    assert((IngredientV { name: i.name, quantity: i.quantity, unit: i.unit }) =~= i);
}

/// If every one of `n` consecutive lines decodes to the matching entry
/// of `ings`, the block of lines decodes to `ings` as a whole.
proof fn lemma_decode_ingredients_all(lines: Seq<Seq<char>>, start: int, ings: Seq<IngredientV>)
    requires
        0 <= start,
        start + ings.len() <= lines.len(),
        forall|i: int|
            0 <= i < ings.len() ==> ingredient_of_line(#[trigger] lines[start + i]) == Ok::<
                IngredientV,
                MalformedRecord,
            >(ings[i]),
    ensures
        decode_ingredients(lines, start, ings.len() as int) == Ok::<
            Seq<IngredientV>,
            MalformedRecord,
        >(ings),
    decreases ings.len(),
{
    if ings.len() == 0 {
        assert(decode_ingredients(lines, start, 0) == Ok::<Seq<IngredientV>, MalformedRecord>(
            Seq::<IngredientV>::empty(),
        ));
        assert(ings =~= Seq::<IngredientV>::empty());
    } else {
        let rest = ings.drop_first();
        assert(forall|i: int|
            0 <= i < rest.len() ==> #[trigger] lines[start + 1 + i] == lines[start + (i + 1)]
                && rest[i] == ings[i + 1]);
        lemma_decode_ingredients_all(lines, start + 1, rest);
        assert(ingredient_of_line(lines[start + 0]) == Ok::<IngredientV, MalformedRecord>(
            ings[0],
        ));
        assert(lines[start + 0] == lines[start]);
        assert(seq![ings[0]] + rest =~= ings);
    }
}

/// Law: decoding an encoded recipe gives back exactly that recipe and
/// consumes exactly its lines.
pub proof fn lemma_record_round_trip(r: RecipeV)
    requires
        recipe_wf(r),
    ensures
        decode_spec(encode_spec(r), 0) == Ok::<(RecipeV, int), MalformedRecord>(
            (r, encode_spec(r).len() as int),
        ),
{
    let lines = encode_spec(r);
    let n = r.ingredients.len() as int;
    let m = r.steps.len() as int;
    assert(lines.len() == 4 + n + m);
    lemma_dec_digits(n);
    lemma_dec_digits(m);
    assert(lines[0] == r.name);
    assert(lines[1] == r.description);
    assert(lines[2] == dec_digits(n));
    assert(parse_u32_spec(dec_digits(n)) == Some(n as u32));
    assert(lines[3 + n] == dec_digits(m));
    assert(parse_u32_spec(dec_digits(m)) == Some(m as u32));
    assert forall|i: int|
        0 <= i < n implies ingredient_of_line(#[trigger] lines[3 + i]) == Ok::<
        IngredientV,
        MalformedRecord,
    >(r.ingredients[i]) by {
        assert(lines[3 + i] == ingredient_line_spec(r.ingredients[i]));
        lemma_ingredient_line_round_trip(r.ingredients[i]);
    }
    lemma_decode_ingredients_all(lines, 3, r.ingredients);
    assert(lines.subrange(4 + n, 4 + n + m) =~= r.steps);
    assert(decode_spec(lines, 0) == Ok::<(RecipeV, int), MalformedRecord>(
        (
            RecipeV {
                name: lines[0],
                description: lines[1],
                ingredients: r.ingredients,
                steps: lines.subrange(4 + n, 4 + n + m),
            },
            4 + n + m,
        ),
    ));
    assert((RecipeV {
        name: lines[0],
        description: lines[1],
        ingredients: r.ingredients,
        steps: lines.subrange(4 + n, 4 + n + m),
    }) =~= r);
}

/// No line of an encoded record contains a newline, so the record
/// survives being written as newline-terminated text.
proof fn lemma_encode_lines_clean(r: RecipeV)
    requires
        recipe_wf(r),
    ensures
        forall|i: int|
            0 <= i < encode_spec(r).len() ==> forall|k: int|
                0 <= k < encode_spec(r)[i].len() ==> (#[trigger] encode_spec(r)[i])[k] != '\n',
{
    let lines = encode_spec(r);
    let n = r.ingredients.len() as int;
    let m = r.steps.len() as int;
    lemma_dec_digits(n);
    lemma_dec_digits(m);
    assert forall|i: int|
        0 <= i < lines.len() implies forall|k: int|
        0 <= k < lines[i].len() ==> (#[trigger] lines[i])[k] != '\n' by {
        if i == 2 || i == 3 + n {
            let d = if i == 2 {
                dec_digits(n)
            } else {
                dec_digits(m)
            };
            assert(lines[i] == d);
            assert(forall|k: int|
                0 <= k < d.len() ==> crate::text::is_digit(#[trigger] d[k]) && d[k] != '\n');
        } else if 3 <= i < 3 + n {
            let ing = r.ingredients[i - 3];
            assert(lines[i] == ingredient_line_spec(ing));
            lemma_quantity_nonspace(ing.quantity);
            lemma_display_unit_clean(ing.unit);
            assert(forall|k: int|
                0 <= k < ingredient_line_spec(ing).len() ==> !is_space(
                    #[trigger] ingredient_line_spec(ing)[k],
                ) || ingredient_line_spec(ing)[k] == ' ');
        } else if i == 0 {
            assert(lines[i] == r.name);
        } else if i == 1 {
            assert(lines[i] == r.description);
        } else {
            assert(lines[i] == r.steps[i - (4 + n)]);
        }
    }
}

/// Law: a recipe written as one newline-terminated text — its encoded
/// lines joined — splits and decodes back to exactly that recipe.
pub proof fn lemma_text_round_trip(r: RecipeV)
    requires
        recipe_wf(r),
    ensures
        split_lines_spec(join_lines_spec(encode_spec(r))) == encode_spec(r),
        decode_spec(split_lines_spec(join_lines_spec(encode_spec(r))), 0) == Ok::<
            (RecipeV, int),
            MalformedRecord,
        >((r, encode_spec(r).len() as int)),
{
    lemma_encode_lines_clean(r);
    lemma_lines_round_trip(encode_spec(r));
    lemma_record_round_trip(r);
}

} // verus!