//! The recipe collection kept in lockstep with a modelled backing
//! store: one encoded record per recipe, at the same index.  Callers
//! that persist records on disk perform the file operation first and
//! commit the matching mutation here only on success, so a store
//! failure leaves the collection untouched.

use vstd::prelude::*;

use crate::codec::{decode, decode_spec, encode, encode_spec, lemma_record_round_trip,
    MalformedRecord};
use crate::recipe::{recipe_wf, Recipe, RecipeV};
use crate::text::{lower_char, lower_seq, push_char, to_lower};

verus! {

/// The filesystem-safe key of a recipe name: lowercased, with spaces
/// replaced by underscores.
pub open spec fn slug_seq(s: Seq<char>) -> Seq<char> {
    s.map_values(|c: char| if c == ' ' { '_' } else { lower_char(c) })
}

/// Derives the storage key of a recipe name.
pub fn slug_of(name: &str) -> (r: String)
    ensures
        r@ == slug_seq(name@),
{
    let n: usize = name.unicode_len();
    let mut r = String::new();
    let mut i: usize = 0;
    while i < n
        invariant
            i <= n,
            n == name@.len(),
            r@ == slug_seq(name@.take(i as int)),
        decreases n - i,
    {
        let c = name.get_char(i);
        if c == ' ' {
            push_char(&mut r, '_');
        } else {
            push_char(&mut r, crate::text::lower_char_exec(c));
        }
        proof {
            assert(slug_seq(name@.take(i + 1)) =~= slug_seq(name@.take(i as int)).push(
                if name@[i as int] == ' ' {
                    '_'
                } else {
                    lower_char(name@[i as int])
                },
            ));
        }
        i = i + 1;
    }
    proof {
        assert(name@.take(n as int) =~= name@);
    }
    r
}

/// Whether two names are the same recipe identity: equal once
/// lowercased.
pub open spec fn ci_eq(a: Seq<char>, b: Seq<char>) -> bool {
    lower_seq(a) == lower_seq(b)
}

/// Tests two names for case-insensitive equality.
pub fn names_ci_equal(a: &str, b: &str) -> (r: bool)
    ensures
        r == ci_eq(a@, b@),
{
    let la = to_lower(a);
    let lb = to_lower(b);
    la == lb
}

/// Finds the first recipe whose name equals `name` case-insensitively.
pub fn find_in(recipes: &Vec<Recipe>, name: &str) -> (r: Option<usize>)
    ensures
        match r {
            Some(i) => i < recipes.len() && ci_eq(recipes.deep_view()[i as int].name, name@)
                && forall|j: int|
                0 <= j < i ==> !ci_eq((#[trigger] recipes.deep_view()[j]).name, name@),
            None => forall|j: int|
                0 <= j < recipes.len() ==> !ci_eq((#[trigger] recipes.deep_view()[j]).name, name@),
        },
{
    let mut i: usize = 0;
    while i < recipes.len()
        invariant
            i <= recipes.len(),
            forall|j: int| 0 <= j < i ==> !ci_eq((#[trigger] recipes.deep_view()[j]).name, name@),
        decreases recipes.len() - i,
    {
        if names_ci_equal(recipes[i].name.as_str(), name) {
            return Some(i);
        }
        i = i + 1;
    }
    None
}

/// The outcome of an add: a fresh entry, or the overwrite of the entry
/// whose name collided (the new recipe wins).
#[derive(Clone, Copy, Debug, PartialEq, Eq, Structural)]
pub enum AddOutcome {
    Added,
    Replaced(usize),
}

/// The outcome of a failed removal.
#[derive(Clone, Copy, Debug, PartialEq, Eq, Structural)]
pub enum RemoveError {
    NotFound,
}

/// A record that decodes successfully and spans all of its lines.
pub open spec fn record_full(lines: Seq<Seq<char>>) -> bool {
    match decode_spec(lines, 0) {
        Ok((r, end)) => end == lines.len(),
        Err(_) => false,
    }
}

/// The recipe a full record decodes to.
pub open spec fn decoded_recipe(lines: Seq<Seq<char>>) -> RecipeV {
    decode_spec(lines, 0)->Ok_0.0
}

/// The first `n` records decode fully and bear pairwise distinct names.
pub open spec fn prefix_loads(rs: Seq<Seq<Seq<char>>>, n: int) -> bool {
    &&& forall|j: int| 0 <= j < n ==> record_full(#[trigger] rs[j])
    &&& forall|j1: int, j2: int|
        0 <= j1 < j2 < n ==> !ci_eq(
            decoded_recipe(#[trigger] rs[j1]).name,
            decoded_recipe(#[trigger] rs[j2]).name,
        )
}

/// The ways loading a store can fail, each carrying the index of the
/// offending record; loading is fail-fast, so everything before that
/// index was sound.
#[derive(Clone, Copy, Debug, PartialEq, Eq, Structural)]
pub enum LoadError {
    /// The record does not decode.
    Malformed(usize, MalformedRecord),
    /// The record decodes but extra lines follow it.
    ExtraLines(usize),
    /// The record's name collides with an earlier record's name.
    DuplicateName(usize),
}

/// The in-memory recipe collection together with the records the
/// backing store holds for it, index for index.
pub struct RecipeManager {
    pub recipes: Vec<Recipe>,
    pub files: Vec<Vec<String>>,
}

impl RecipeManager {
    /// The lockstep invariant: one record per recipe, each record
    /// decodes exactly to its recipe, and names are unique under
    /// case-insensitive comparison.
    pub open spec fn wf(self) -> bool {
        &&& self.recipes.len() == self.files.len()
        &&& forall|i: int|
            0 <= i < self.recipes.len() ==> decode_spec(#[trigger] self.files.deep_view()[i], 0)
                == Ok::<(RecipeV, int), MalformedRecord>(
                (self.recipes.deep_view()[i], self.files.deep_view()[i].len() as int),
            )
        &&& forall|i: int, j: int|
            0 <= i < j < self.recipes.len() ==> !ci_eq(
                (#[trigger] self.recipes.deep_view()[i]).name,
                (#[trigger] self.recipes.deep_view()[j]).name,
            )
    }

    /// An empty collection over an empty store.
    pub fn new() -> (m: RecipeManager)
        ensures
            m.wf(),
            m.recipes.len() == 0,
            m.files.len() == 0,
    {
        RecipeManager { recipes: Vec::new(), files: Vec::new() }
    }

    /// Loads a whole store: decodes every record, fail-fast on the
    /// first malformed record, trailing data, or duplicate name.
    pub fn load_all(records: Vec<Vec<String>>) -> (r: Result<RecipeManager, LoadError>)
        ensures
            match r {
                Ok(m) => m.wf() && m.files.deep_view() == records.deep_view()
                    && m.recipes.len() == records.len() && prefix_loads(
                    records.deep_view(),
                    records.len() as int,
                ),
                Err(e) => match e {
                    LoadError::Malformed(i, err) => i < records.len() && prefix_loads(
                        records.deep_view(),
                        i as int,
                    ) && decode_spec(records.deep_view()[i as int], 0) == Err::<
                        (RecipeV, int),
                        MalformedRecord,
                    >(err),
                    LoadError::ExtraLines(i) => i < records.len() && prefix_loads(
                        records.deep_view(),
                        i as int,
                    ) && decode_spec(records.deep_view()[i as int], 0) is Ok && decode_spec(
                        records.deep_view()[i as int],
                        0,
                    )->Ok_0.1 != records.deep_view()[i as int].len(),
                    LoadError::DuplicateName(i) => i < records.len() && prefix_loads(
                        records.deep_view(),
                        i as int,
                    ) && record_full(records.deep_view()[i as int]) && exists|j: int|
                        0 <= j < i && ci_eq(
                            decoded_recipe(#[trigger] records.deep_view()[j]).name,
                            decoded_recipe(records.deep_view()[i as int]).name,
                        ),
                },
            },
    {
        let mut recipes: Vec<Recipe> = Vec::new();
        let mut i: usize = 0;
        while i < records.len()
            invariant
                i <= records.len(),
                recipes.deep_view().len() == i,
                prefix_loads(records.deep_view(), i as int),
                forall|j: int|
                    0 <= j < i ==> (#[trigger] recipes.deep_view()[j]) == decoded_recipe(
                        records.deep_view()[j],
                    ),
            decreases records.len() - i,
        {
            match decode(&records[i], 0) {
                Err(e) => {
                    return Err(LoadError::Malformed(i, e));
                },
                Ok((rec, end)) => {
                    if end != records[i].len() {
                        return Err(LoadError::ExtraLines(i));
                    }
                    match find_in(&recipes, rec.name.as_str()) {
                        Some(_) => {
                            return Err(LoadError::DuplicateName(i));
                        },
                        None => {
                            let ghost prev = recipes.deep_view();
                            recipes.push(rec);
                            proof {
                                assert(recipes.deep_view() =~= prev.push(rec@));
                                let dv = records.deep_view();
                                assert(decode_spec(dv[i as int], 0) == Ok::<
                                    (RecipeV, int),
                                    MalformedRecord,
                                >((rec@, end as int)));
                                assert(record_full(dv[i as int]));
                                assert(decoded_recipe(dv[i as int]) == rec@);
                                assert forall|j1: int, j2: int|
                                    0 <= j1 < j2 < i + 1 implies !ci_eq(
                                    decoded_recipe(#[trigger] dv[j1]).name,
                                    decoded_recipe(#[trigger] dv[j2]).name,
                                ) by {
                                    if j2 == i {
                                        assert(prev[j1] == decoded_recipe(dv[j1]));
                                        assert(!ci_eq(prev[j1].name, rec@.name));
                                    }
                                }
                            }
                        },
                    }
                },
            }
            i = i + 1;
        }
        Ok(RecipeManager { recipes, files: records })
    }

    /// Finds the first recipe with this name, case-insensitively.
    pub fn lookup(&self, name: &str) -> (r: Option<usize>)
        ensures
            match r {
                Some(i) => i < self.recipes.len() && ci_eq(
                    self.recipes.deep_view()[i as int].name,
                    name@,
                ) && forall|j: int|
                    0 <= j < i ==> !ci_eq((#[trigger] self.recipes.deep_view()[j]).name, name@),
                None => forall|j: int|
                    0 <= j < self.recipes.len() ==> !ci_eq(
                        (#[trigger] self.recipes.deep_view()[j]).name,
                        name@,
                    ),
            },
    {
        find_in(&self.recipes, name)
    }

    /// Adds a recipe: a colliding name (case-insensitive) is
    /// overwritten in place — the new recipe wins — so no two entries
    /// ever share a name; otherwise the recipe is appended.
    pub fn add(&mut self, r: Recipe) -> (out: AddOutcome)
        requires
            old(self).wf(),
            recipe_wf(r@),
        ensures
            final(self).wf(),
            match out {
                AddOutcome::Added => (forall|j: int|
                    0 <= j < old(self).recipes.len() ==> !ci_eq(
                        (#[trigger] old(self).recipes.deep_view()[j]).name,
                        r@.name,
                    )) && final(self).recipes.deep_view() == old(self).recipes.deep_view().push(r@)
                    && final(self).files.deep_view() == old(self).files.deep_view().push(
                    encode_spec(r@),
                ),
                AddOutcome::Replaced(i) => i < old(self).recipes.len() && ci_eq(
                    old(self).recipes.deep_view()[i as int].name,
                    r@.name,
                ) && (forall|j: int|
                    0 <= j < i ==> !ci_eq(
                        (#[trigger] old(self).recipes.deep_view()[j]).name,
                        r@.name,
                    )) && final(self).recipes.deep_view() == old(self).recipes.deep_view().update(
                    i as int,
                    r@,
                ) && final(self).files.deep_view() == old(self).files.deep_view().update(
                    i as int,
                    encode_spec(r@),
                ),
            },
    {
        let lines = encode(&r);
        proof {
            lemma_record_round_trip(r@);
        }
        match find_in(&self.recipes, r.name.as_str()) {
            Some(i) => {
                let ghost prev_r = self.recipes.deep_view();
                let ghost prev_f = self.files.deep_view();
                self.recipes.remove(i);
                self.recipes.insert(i, r);
                self.files.remove(i);
                self.files.insert(i, lines);
                proof {
                    assert(self.recipes.deep_view() =~= prev_r.update(i as int, r@));
                    assert(self.files.deep_view() =~= prev_f.update(i as int, encode_spec(r@)));
                }
                AddOutcome::Replaced(i)
            },
            None => {
                let ghost prev_r = self.recipes.deep_view();
                let ghost prev_f = self.files.deep_view();
                self.recipes.push(r);
                self.files.push(lines);
                proof {
                    assert(self.recipes.deep_view() =~= prev_r.push(r@));
                    assert(self.files.deep_view() =~= prev_f.push(encode_spec(r@)));
                }
                AddOutcome::Added
            },
        }
    }

    /// Removes the entry at a known index: the commit half of a
    /// store-first removal.
    pub fn remove_at(&mut self, i: usize)
        requires
            old(self).wf(),
            i < old(self).recipes.len(),
        ensures
            final(self).wf(),
            final(self).recipes.deep_view() == old(self).recipes.deep_view().remove(i as int),
            final(self).files.deep_view() == old(self).files.deep_view().remove(i as int),
    {
        let ghost prev_r = self.recipes.deep_view();
        let ghost prev_f = self.files.deep_view();
        self.recipes.remove(i);
        self.files.remove(i);
        proof {
            assert(self.recipes.deep_view() =~= prev_r.remove(i as int));
            assert(self.files.deep_view() =~= prev_f.remove(i as int));
        }
    }

    /// Removes the first recipe matching `name` case-insensitively,
    /// together with its record; an absent name returns `NotFound` and
    /// leaves the collection and the store exactly as they were.
    pub fn remove(&mut self, name: &str) -> (r: Result<(), RemoveError>)
        requires
            old(self).wf(),
        ensures
            final(self).wf(),
            match r {
                Ok(()) => exists|i: int|
                    0 <= i < old(self).recipes.len() && ci_eq(
                        (#[trigger] old(self).recipes.deep_view()[i]).name,
                        name@,
                    ) && (forall|j: int|
                        0 <= j < i ==> !ci_eq(
                            (#[trigger] old(self).recipes.deep_view()[j]).name,
                            name@,
                        )) && final(self).recipes.deep_view() == old(
                        self,
                    ).recipes.deep_view().remove(i) && final(self).files.deep_view() == old(
                        self,
                    ).files.deep_view().remove(i),
                Err(RemoveError::NotFound) => (forall|j: int|
                    0 <= j < old(self).recipes.len() ==> !ci_eq(
                        (#[trigger] old(self).recipes.deep_view()[j]).name,
                        name@,
                    )) && final(self).recipes.deep_view() == old(self).recipes.deep_view()
                    && final(self).files.deep_view() == old(self).files.deep_view(),
            },
    {
        match find_in(&self.recipes, name) {
            None => Err(RemoveError::NotFound),
            Some(i) => {
                self.remove_at(i);
                Ok(())
            },
        }
    }
}

} // verus!