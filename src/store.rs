use vstd::prelude::*;
use crate::model::{Duplicate, Recipe, RecipeV, duplicate_all, views};

verus! {

/// Why a store operation that names a record by id did not happen.
#[derive(Debug)]
pub enum StoreError {
    /// No record has this id.
    NotFound(String),
}

impl StoreError {
    /// The id that was looked for.
    pub open spec fn missing_id(&self) -> Seq<char> {
        match self {
            StoreError::NotFound(s) => s@,
        }
    }
}

/// Some record of `s` has the id.
pub open spec fn has_id(s: Seq<RecipeV>, id: Seq<char>) -> bool {
    exists|i: int| 0 <= i < s.len() && #[trigger] s[i].id == id
}

/// `i` is the position of the first record of `s` with the id.
pub open spec fn is_first_index(s: Seq<RecipeV>, id: Seq<char>, i: int) -> bool {
    &&& 0 <= i < s.len()
    &&& s[i].id == id
    &&& forall|j: int| 0 <= j < i ==> #[trigger] s[j].id != id
}

/// The position of the first record with the id (meaningful when there is one).
pub open spec fn first_index(s: Seq<RecipeV>, id: Seq<char>) -> int {
    choose|i: int| is_first_index(s, id, i)
}

/// The record with its favourite flag flipped.
pub open spec fn flip_favorite(r: RecipeV) -> RecipeV {
    RecipeV {
        id: r.id,
        title: r.title,
        description: r.description,
        image_url: r.image_url,
        prep_time: r.prep_time,
        cook_time: r.cook_time,
        servings: r.servings,
        difficulty: r.difficulty,
        category: r.category,
        tags: r.tags,
        ingredients: r.ingredients,
        steps: r.steps,
        rating_bits: r.rating_bits,
        reviews: r.reviews,
        is_favorite: !r.is_favorite,
        created_at: r.created_at,
        updated_at: r.updated_at,
    }
}

/// The first record with the id, if any.
pub open spec fn lookup(s: Seq<RecipeV>, id: Seq<char>) -> Option<RecipeV> {
    if has_id(s, id) {
        Some(s[first_index(s, id)])
    } else {
        None
    }
}

/// The store after the first record with the id is replaced by `r`.
pub open spec fn replaced(s: Seq<RecipeV>, id: Seq<char>, r: RecipeV) -> Seq<RecipeV> {
    if has_id(s, id) {
        s.update(first_index(s, id), r)
    } else {
        s
    }
}

/// The store after the first record with the id is removed.
pub open spec fn removed(s: Seq<RecipeV>, id: Seq<char>) -> Seq<RecipeV> {
    if has_id(s, id) {
        s.remove(first_index(s, id))
    } else {
        s
    }
}

/// The store after the favourite flag of the first record with the id is flipped.
pub open spec fn toggled(s: Seq<RecipeV>, id: Seq<char>) -> Seq<RecipeV> {
    if has_id(s, id) {
        s.update(first_index(s, id), flip_favorite(s[first_index(s, id)]))
    } else {
        s
    }
}

proof fn lemma_first_exists(s: Seq<RecipeV>, id: Seq<char>, k: int)
    requires
        0 <= k < s.len(),
        s[k].id == id,
    ensures
        exists|i: int| is_first_index(s, id, i),
    decreases k,
{
    if exists|j: int| 0 <= j < k && #[trigger] s[j].id == id {
        let j = choose|j: int| 0 <= j < k && #[trigger] s[j].id == id;
        lemma_first_exists(s, id, j);
    } else {
        assert(is_first_index(s, id, k));
    }
}

/// When the id occurs, `first_index` is its first position, and the only one
/// with that property.
pub proof fn lemma_first_index(s: Seq<RecipeV>, id: Seq<char>)
    requires
        has_id(s, id),
    ensures
        is_first_index(s, id, first_index(s, id)),
        forall|i: int| is_first_index(s, id, i) ==> i == first_index(s, id),
{
    let k = choose|k: int| 0 <= k < s.len() && #[trigger] s[k].id == id;
    lemma_first_exists(s, id, k);
    let f = first_index(s, id);
    assert forall|i: int| is_first_index(s, id, i) implies i == f by {
        if i < f {
            assert(s[i].id != id);
        } else if f < i {
            assert(s[f].id != id);
        }
    }
}

/// The position of the first record with the id, if any.
fn find_index(recipes: &Vec<Recipe>, id: &String) -> (r: Option<usize>)
    ensures
        match r {
            Some(i) => is_first_index(views(recipes@), id@, i as int) && i == first_index(
                views(recipes@),
                id@,
            ),
            None => !has_id(views(recipes@), id@),
        },
{
    let ghost s = views(recipes@);
    let mut i: usize = 0;
    while i < recipes.len()
        invariant
            i <= recipes.len(),
            s == views(recipes@),
            forall|j: int| 0 <= j < i ==> #[trigger] s[j].id != id@,
        decreases recipes.len() - i,
    {
        if recipes[i].id == *id {
            proof {
                assert(s[i as int].id == id@);
                lemma_first_index(s, id@);
            }
            return Some(i);
        }
        i = i + 1;
    }
    None
}

/// A copy of every record, in store order.
pub fn get_all_recipes(recipes: &Vec<Recipe>) -> (r: Vec<Recipe>)
    ensures
        views(r@) == views(recipes@),
{
    duplicate_all(recipes)
}

/// A copy of the first record with the id, or `None` when no record has it.
pub fn get_recipe_by_id(recipes: &Vec<Recipe>, id: String) -> (r: Option<Recipe>)
    ensures
        match r {
            Some(x) => lookup(views(recipes@), id@) == Some(x@),
            None => lookup(views(recipes@), id@) is None,
        },
{
    match find_index(recipes, &id) {
        Some(i) => Some(recipes[i].duplicate()),
        None => None,
    }
}

/// Appends the record (no check on its id) and returns it.
pub fn add_recipe(recipes: &mut Vec<Recipe>, recipe: Recipe) -> (r: Recipe)
    ensures
        views(final(recipes)@) == views(old(recipes)@).push(recipe@),
        r@ == recipe@,
{
    let copy = recipe.duplicate();
    recipes.push(recipe);
    assert(views(recipes@) =~= views(old(recipes)@).push(copy@));
    copy
}

/// Replaces the first record with the id wholesale; the new record's own id is
/// not compared with `id`.
pub fn update_recipe(recipes: &mut Vec<Recipe>, id: String, updated_recipe: Recipe) -> (r: Result<
    Recipe,
    StoreError,
>)
    ensures
        views(final(recipes)@) == replaced(views(old(recipes)@), id@, updated_recipe@),
        match r {
            Ok(x) => has_id(views(old(recipes)@), id@) && x@ == updated_recipe@,
            Err(e) => !has_id(views(old(recipes)@), id@) && e.missing_id() == id@ 
                && final(recipes)@ == old(recipes)@,
        },
{
    match find_index(recipes, &id) {
        Some(i) => {
            let copy = updated_recipe.duplicate();
            recipes[i] = updated_recipe;
            assert(views(recipes@) =~= views(old(recipes)@).update(i as int, copy@));
            Ok(copy)
        },
        None => Err(StoreError::NotFound(id)),
    }
}

/// Removes the first record with the id.
pub fn delete_recipe(recipes: &mut Vec<Recipe>, id: String) -> (r: Result<bool, StoreError>)
    ensures
        views(final(recipes)@) == removed(views(old(recipes)@), id@),
        match r {
            Ok(b) => has_id(views(old(recipes)@), id@) && b,
            Err(e) => !has_id(views(old(recipes)@), id@) && e.missing_id() == id@ 
                && final(recipes)@ == old(recipes)@,
        },
{
    match find_index(recipes, &id) {
        Some(i) => {
            recipes.remove(i);
            assert(views(recipes@) =~= views(old(recipes)@).remove(i as int));
            Ok(true)
        },
        None => Err(StoreError::NotFound(id)),
    }
}

/// Flips the favourite flag of the first record with the id and returns a copy
/// of that record as it now is.
pub fn toggle_favorite(recipes: &mut Vec<Recipe>, id: String) -> (r: Result<Recipe, StoreError>)
    ensures
        views(final(recipes)@) == toggled(views(old(recipes)@), id@),
        match r {
            Ok(x) => has_id(views(old(recipes)@), id@) && x@ == flip_favorite(
                views(old(recipes)@)[first_index(views(old(recipes)@), id@)],
            ),
            Err(e) => !has_id(views(old(recipes)@), id@) && e.missing_id() == id@ 
                && final(recipes)@ == old(recipes)@,
        },
{
    match find_index(recipes, &id) {
        Some(i) => {
            let flag = !recipes[i].is_favorite;
            recipes[i].is_favorite = flag;
            let copy = recipes[i].duplicate();
            assert(views(recipes@) =~= views(old(recipes)@).update(
                i as int,
                flip_favorite(views(old(recipes)@)[i as int]),
            ));
            Ok(copy)
        },
        None => Err(StoreError::NotFound(id)),
    }
}

/// Toggling the favourite flag of the same id twice gives back the store as it was.
pub proof fn lemma_toggle_twice(s: Seq<RecipeV>, id: Seq<char>)
    ensures
        toggled(toggled(s, id), id) == s,
{
    if has_id(s, id) {
        lemma_first_index(s, id);
        let i = first_index(s, id);
        let t = toggled(s, id);
        assert(is_first_index(t, id, i)) by {
            assert forall|j: int| 0 <= j < i implies #[trigger] t[j].id != id by {
                assert(t[j] == s[j]);
            }
        }
        assert(has_id(t, id));
        lemma_first_index(t, id);
        assert(toggled(t, id) =~= s);
    }
}

/// After appending a record whose id no record had, looking that id up gives
/// the record back.
pub proof fn lemma_add_then_get(s: Seq<RecipeV>, r: RecipeV)
    requires
        !has_id(s, r.id),
    ensures
        lookup(s.push(r), r.id) == Some(r),
{
    let t = s.push(r);
    assert(t[s.len() as int].id == r.id);
    assert(has_id(t, r.id));
    lemma_first_index(t, r.id);
    assert(is_first_index(t, r.id, s.len() as int)) by {
        assert forall|j: int| 0 <= j < s.len() implies #[trigger] t[j].id != r.id by {
            assert(t[j] == s[j]);
        }
    }
}

} // verus!
