//! The recipe data model: ingredients and recipes, their mathematical
//! views, and the well-formedness invariants the codec relies on.

use vstd::prelude::*;

use crate::text::{is_space, is_space_char, is_quantity, is_quantity_token};
use crate::unit::Unit;

verus! {

/// One ingredient: a whitespace-free name, a decimal quantity literal
/// kept exactly as written, and a unit.  The quantity passes through
/// unchecked beyond its syntax; no sign or range policy is imposed.
#[derive(Debug)]
pub struct Ingredient {
    pub name: String,
    pub quantity: String,
    pub unit: Unit,
}

/// Mathematical view of an [`Ingredient`].
#[verifier::ext_equal]
pub ghost struct IngredientV {
    pub name: Seq<char>,
    pub quantity: Seq<char>,
    pub unit: Unit,
}

impl View for Ingredient {
    type V = IngredientV;

    open spec fn view(&self) -> IngredientV {
        IngredientV { name: self.name@, quantity: self.quantity@, unit: self.unit }
    }
}

impl DeepView for Ingredient {
    type V = IngredientV;

    open spec fn deep_view(&self) -> IngredientV {
        self.view()
    }
}

/// A recipe: its name is its identity (compared case-insensitively),
/// the ingredient order is display order, and the step order is the
/// order of execution.
#[derive(Debug)]
pub struct Recipe {
    pub name: String,
    pub description: String,
    pub ingredients: Vec<Ingredient>,
    pub steps: Vec<String>,
}

/// Mathematical view of a [`Recipe`].
#[verifier::ext_equal]
pub ghost struct RecipeV {
    pub name: Seq<char>,
    pub description: Seq<char>,
    pub ingredients: Seq<IngredientV>,
    pub steps: Seq<Seq<char>>,
}

impl View for Recipe {
    type V = RecipeV;

    open spec fn view(&self) -> RecipeV {
        RecipeV {
            name: self.name@,
            description: self.description@,
            ingredients: self.ingredients.deep_view(),
            steps: self.steps.deep_view(),
        }
    }
}

impl DeepView for Recipe {
    type V = RecipeV;

    open spec fn deep_view(&self) -> RecipeV {
        self.view()
    }
}

/// A line of text: free of the line breaks that would corrupt the
/// line-oriented record format.
pub open spec fn line_wf(s: Seq<char>) -> bool {
    forall|k: int| 0 <= k < s.len() ==> s[k] != '\n' && s[k] != '\r'
}

/// A well-formed ingredient: non-empty whitespace-free name and a
/// syntactically valid decimal quantity.
pub open spec fn ingredient_wf(i: IngredientV) -> bool {
    &&& i.name.len() > 0
    &&& forall|k: int| 0 <= k < i.name.len() ==> !is_space(i.name[k])
    &&& is_quantity_token(i.quantity)
}

/// A well-formed recipe: every textual field is a single line, every
/// ingredient is well formed, and the counts fit the declared 32-bit
/// count fields of the record format.
pub open spec fn recipe_wf(r: RecipeV) -> bool {
    &&& line_wf(r.name)
    &&& line_wf(r.description)
    &&& forall|i: int| 0 <= i < r.ingredients.len() ==> ingredient_wf(#[trigger] r.ingredients[i])
    &&& forall|j: int| 0 <= j < r.steps.len() ==> line_wf(#[trigger] r.steps[j])
    &&& r.ingredients.len() <= u32::MAX
    &&& r.steps.len() <= u32::MAX
}

/// Checks that a string is a single line.
pub fn line_ok(s: &str) -> (r: bool)
    ensures
        r == line_wf(s@),
{
    let n: usize = s.unicode_len();
    let mut i: usize = 0;
    while i < n
        invariant
            i <= n,
            n == s@.len(),
            forall|k: int| 0 <= k < i ==> s@[k] != '\n' && s@[k] != '\r',
        decreases n - i,
    {
        let c = s.get_char(i);
        if c == '\n' || c == '\r' {
            return false;
        }
        i = i + 1;
    }
    true
}

/// Checks the ingredient invariant at run time.
pub fn ingredient_ok(i: &Ingredient) -> (r: bool)
    ensures
        r == ingredient_wf(i@),
{
    let n: usize = i.name.as_str().unicode_len();
    if n == 0 {
        return false;
    }
    let mut k: usize = 0;
    while k < n
        invariant
            k <= n,
            n == i.name@.len(),
            forall|m: int| 0 <= m < k ==> !is_space(i.name@[m]),
        decreases n - k,
    {
        if is_space_char(i.name.as_str().get_char(k)) {
            return false;
        }
        k = k + 1;
    }
    is_quantity(i.quantity.as_str())
}

/// Builds an ingredient after validating its invariant; `None` exactly
/// when the parts do not form a well-formed ingredient.
pub fn make_ingredient(name: String, quantity: String, unit: Unit) -> (r: Option<Ingredient>)
    ensures
        match r {
            Some(i) => i@ == (IngredientV { name: name@, quantity: quantity@, unit })
                && ingredient_wf(i@),
            None => !ingredient_wf(IngredientV { name: name@, quantity: quantity@, unit }),
        },
{
    let i = Ingredient { name, quantity, unit };
    if ingredient_ok(&i) {
        Some(i)
    } else {
        None
    }
}

/// Builds a recipe after validating its invariant; `None` exactly when
/// the parts do not form a well-formed recipe.
pub fn make_recipe(name: String, description: String, ingredients: Vec<Ingredient>, steps: Vec<
    String,
>) -> (r: Option<Recipe>)
    ensures
        ({
            let v = RecipeV {
                name: name@,
                description: description@,
                ingredients: ingredients.deep_view(),
                steps: steps.deep_view(),
            };
            match r {
                Some(rec) => rec@ == v && recipe_wf(rec@),
                None => !recipe_wf(v),
            }
        }),
{
    let ghost v = RecipeV {
        name: name@,
        description: description@,
        ingredients: ingredients.deep_view(),
        steps: steps.deep_view(),
    };
    if !line_ok(name.as_str()) {
        return None;
    }
    if !line_ok(description.as_str()) {
        return None;
    }
    if ingredients.len() as u64 > u32::MAX as u64 {
        return None;
    }
    if steps.len() as u64 > u32::MAX as u64 {
        return None;
    }
    let mut i: usize = 0;
    while i < ingredients.len()
        invariant
            i <= ingredients.len(),
            v.ingredients == ingredients.deep_view(),
            forall|m: int| 0 <= m < i ==> ingredient_wf(#[trigger] v.ingredients[m]),
        decreases ingredients.len() - i,
    {
        if !ingredient_ok(&ingredients[i]) {
            assert(!ingredient_wf(v.ingredients[i as int]));
            return None;
        }
        i = i + 1;
    }
    let mut j: usize = 0;
    while j < steps.len()
        invariant
            j <= steps.len(),
            v.steps == steps.deep_view(),
            forall|m: int| 0 <= m < j ==> line_wf(#[trigger] v.steps[m]),
        decreases steps.len() - j,
    {
        if !line_ok(steps[j].as_str()) {
            assert(!line_wf(v.steps[j as int]));
            return None;
        }
        j = j + 1;
    }
    let rec = Recipe { name, description, ingredients, steps };
    assert(rec@ == v);
    Some(rec)
}

impl PartialEq for Ingredient {
    fn eq(&self, o: &Ingredient) -> (r: bool) {
        self.name == o.name && self.quantity == o.quantity && self.unit == o.unit
    }
}

impl Eq for Ingredient {

}

impl vstd::std_specs::cmp::PartialEqSpecImpl for Ingredient {
    open spec fn obeys_eq_spec() -> bool {
        true
    }

    open spec fn eq_spec(&self, o: &Ingredient) -> bool {
        self@ == o@
    }
}

impl PartialEq for Recipe {
    fn eq(&self, o: &Recipe) -> (r: bool) {
        if !(self.name == o.name && self.description == o.description) {
            return false;
        }
        if self.ingredients.len() != o.ingredients.len() {
            proof {
                assert(self@.ingredients.len() != o@.ingredients.len());
            }
            return false;
        }
        if self.steps.len() != o.steps.len() {
            proof {
                assert(self@.steps.len() != o@.steps.len());
            }
            return false;
        }
        let mut i: usize = 0;
        while i < self.ingredients.len()
            invariant
                i <= self.ingredients.len(),
                self.ingredients.len() == o.ingredients.len(),
                forall|m: int|
                    0 <= m < i ==> #[trigger] self.ingredients.deep_view()[m]
                        == o.ingredients.deep_view()[m],
            decreases self.ingredients.len() - i,
        {
            if !(self.ingredients[i] == o.ingredients[i]) {
                proof {
                    assert(self@.ingredients[i as int] != o@.ingredients[i as int]);
                }
                return false;
            }
            i = i + 1;
        }
        let mut j: usize = 0;
        while j < self.steps.len()
            invariant
                j <= self.steps.len(),
                self.steps.len() == o.steps.len(),
                forall|m: int|
                    0 <= m < j ==> #[trigger] self.steps.deep_view()[m] == o.steps.deep_view()[m],
            decreases self.steps.len() - j,
        {
            if !(self.steps[j] == o.steps[j]) {
                proof {
                    assert(self@.steps[j as int] != o@.steps[j as int]);
                }
                return false;
            }
            j = j + 1;
        }
        proof {
            assert(self@.ingredients =~= o@.ingredients);
            assert(self@.steps =~= o@.steps);
            assert(self@ =~= o@);
        }
        true
    }
}

impl Eq for Recipe {

}

impl vstd::std_specs::cmp::PartialEqSpecImpl for Recipe {
    open spec fn obeys_eq_spec() -> bool {
        true
    }

    open spec fn eq_spec(&self, o: &Recipe) -> bool {
        self@ == o@
    }
}

} // verus!