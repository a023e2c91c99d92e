use vstd::prelude::*;

verus! {

/// How hard a recipe is to prepare.
#[derive(Clone, Copy, Debug, PartialEq, Eq, Structural)]
pub enum Difficulty {
    Easy,
    Medium,
    Hard,
}

/// The attribute that a listing is ordered by.
#[derive(Clone, Copy, Debug, PartialEq, Eq, Structural)]
pub enum SortBy {
    Title,
    Rating,
    PrepTime,
    CreatedAt,
}

/// The direction of an ordering.
#[derive(Clone, Copy, Debug, PartialEq, Eq, Structural)]
pub enum SortOrder {
    Asc,
    Desc,
}

/// One ingredient line. The quantity is held as the bit pattern of an IEEE-754
/// double, so that the record can be copied and compared without floating point.
#[derive(Clone, Debug)]
pub struct Ingredient {
    pub id: String,
    pub name: String,
    pub amount_bits: u64,
    pub unit: String,
}

/// One preparation step; `duration` is in minutes.
#[derive(Clone, Debug)]
pub struct RecipeStep {
    pub id: String,
    pub order: u32,
    pub instruction: String,
    pub duration: Option<u32>,
}

/// A review left on a recipe; `rating` is meant to lie in 1..=5 but is not checked.
#[derive(Clone, Debug)]
pub struct Review {
    pub id: String,
    pub author: String,
    pub rating: u8,
    pub comment: String,
    pub created_at: String,
}

/// A recipe record. `rating_bits` is the bit pattern of the IEEE-754 double rating
/// (meant to lie in 0.0..=5.0, not checked); times are in minutes.
#[derive(Clone, Debug)]
pub struct Recipe {
    pub id: String,
    pub title: String,
    pub description: String,
    pub image_url: Option<String>,
    pub prep_time: u32,
    pub cook_time: u32,
    pub servings: u32,
    pub difficulty: Difficulty,
    pub category: String,
    pub tags: Vec<String>,
    pub ingredients: Vec<Ingredient>,
    pub steps: Vec<RecipeStep>,
    pub rating_bits: u64,
    pub reviews: Vec<Review>,
    pub is_favorite: bool,
    pub created_at: String,
    pub updated_at: String,
}

/// A sparse filter: every absent field imposes no constraint.
#[derive(Clone, Debug)]
pub struct RecipeFilters {
    pub search: Option<String>,
    pub category: Option<String>,
    pub difficulty: Option<Difficulty>,
    pub max_prep_time: Option<u32>,
    pub tags: Option<Vec<String>>,
    pub only_favorites: Option<bool>,
}

/// The mathematical value of an `Ingredient`.
pub struct IngredientV {
    pub id: Seq<char>,
    pub name: Seq<char>,
    pub amount_bits: u64,
    pub unit: Seq<char>,
}

/// The mathematical value of a `RecipeStep`.
pub struct RecipeStepV {
    pub id: Seq<char>,
    pub order: u32,
    pub instruction: Seq<char>,
    pub duration: Option<u32>,
}

/// The mathematical value of a `Review`.
pub struct ReviewV {
    pub id: Seq<char>,
    pub author: Seq<char>,
    pub rating: u8,
    pub comment: Seq<char>,
    pub created_at: Seq<char>,
}

/// The mathematical value of a `Recipe`: every string as its characters.
pub struct RecipeV {
    pub id: Seq<char>,
    pub title: Seq<char>,
    pub description: Seq<char>,
    pub image_url: Option<Seq<char>>,
    pub prep_time: u32,
    pub cook_time: u32,
    pub servings: u32,
    pub difficulty: Difficulty,
    pub category: Seq<char>,
    pub tags: Seq<Seq<char>>,
    pub ingredients: Seq<IngredientV>,
    pub steps: Seq<RecipeStepV>,
    pub rating_bits: u64,
    pub reviews: Seq<ReviewV>,
    pub is_favorite: bool,
    pub created_at: Seq<char>,
    pub updated_at: Seq<char>,
}

/// The mathematical value of a `RecipeFilters`.
pub struct RecipeFiltersV {
    pub search: Option<Seq<char>>,
    pub category: Option<Seq<char>>,
    pub difficulty: Option<Difficulty>,
    pub max_prep_time: Option<u32>,
    pub tags: Option<Seq<Seq<char>>>,
    pub only_favorites: Option<bool>,
}

/// The views of a sequence of values, element by element.
pub open spec fn views<T: View>(s: Seq<T>) -> Seq<T::V> {
    s.map_values(|x: T| x@)
}

/// The characters of an optional string.
pub open spec fn opt_view(o: Option<String>) -> Option<Seq<char>> {
    match o {
        Some(s) => Some(s@),
        None => None,
    }
}

impl View for Ingredient {
    type V = IngredientV;

    open spec fn view(&self) -> IngredientV {
        IngredientV {
            id: self.id@,
            name: self.name@,
            amount_bits: self.amount_bits,
            unit: self.unit@,
        }
    }
}

impl View for RecipeStep {
    type V = RecipeStepV;

    open spec fn view(&self) -> RecipeStepV {
        RecipeStepV {
            id: self.id@,
            order: self.order,
            instruction: self.instruction@,
            duration: self.duration,
        }
    }
}

impl View for Review {
    type V = ReviewV;

    open spec fn view(&self) -> ReviewV {
        ReviewV {
            id: self.id@,
            author: self.author@,
            rating: self.rating,
            comment: self.comment@,
            created_at: self.created_at@,
        }
    }
}

impl View for Recipe {
    type V = RecipeV;

    open spec fn view(&self) -> RecipeV {
        RecipeV {
            id: self.id@,
            title: self.title@,
            description: self.description@,
            image_url: opt_view(self.image_url),
            prep_time: self.prep_time,
            cook_time: self.cook_time,
            servings: self.servings,
            difficulty: self.difficulty,
            category: self.category@,
            tags: views(self.tags@),
            ingredients: views(self.ingredients@),
            steps: views(self.steps@),
            rating_bits: self.rating_bits,
            reviews: views(self.reviews@),
            is_favorite: self.is_favorite,
            created_at: self.created_at@,
            updated_at: self.updated_at@,
        }
    }
}

impl View for RecipeFilters {
    type V = RecipeFiltersV;

    open spec fn view(&self) -> RecipeFiltersV {
        RecipeFiltersV {
            search: opt_view(self.search),
            category: opt_view(self.category),
            difficulty: self.difficulty,
            max_prep_time: self.max_prep_time,
            tags: match self.tags {
                Some(t) => Some(views(t@)),
                None => None,
            },
            only_favorites: self.only_favorites,
        }
    }
}

/// A value that can produce a copy of itself with the same view.
pub trait Duplicate: View + Sized {
    fn duplicate(&self) -> (r: Self)
        ensures
            r@ == self@,
    ;
}

impl Duplicate for String {
    fn duplicate(&self) -> (r: String) {
        self.clone()
    }
}

/// Copies a sequence element by element; the copy has the same views.
pub fn duplicate_all<T: Duplicate>(v: &Vec<T>) -> (r: Vec<T>)
    ensures
        views(r@) == views(v@),
{
    let mut r: Vec<T> = Vec::new();
    let mut i: usize = 0;
    while i < v.len()
        invariant
            i <= v.len(),
            r.len() == i,
            forall|j: int| 0 <= j < i ==> (#[trigger] r@[j])@ == v@[j]@,
        decreases v.len() - i,
    {
        let x = v[i].duplicate();
        r.push(x);
        i = i + 1;
    }
    assert(views(r@) =~= views(v@));
    r
}

fn duplicate_opt(o: &Option<String>) -> (r: Option<String>)
    ensures
        opt_view(r) == opt_view(*o),
{
    match o {
        Some(s) => Some(s.clone()),
        None => None,
    }
}

impl Duplicate for Ingredient {
    fn duplicate(&self) -> (r: Ingredient) {
        Ingredient {
            id: self.id.clone(),
            name: self.name.clone(),
            amount_bits: self.amount_bits,
            unit: self.unit.clone(),
        }
    }
}

impl Duplicate for RecipeStep {
    fn duplicate(&self) -> (r: RecipeStep) {
        RecipeStep {
            id: self.id.clone(),
            order: self.order,
            instruction: self.instruction.clone(),
            duration: self.duration,
        }
    }
}

impl Duplicate for Review {
    fn duplicate(&self) -> (r: Review) {
        Review {
            id: self.id.clone(),
            author: self.author.clone(),
            rating: self.rating,
            comment: self.comment.clone(),
            created_at: self.created_at.clone(),
        }
    }
}

impl Duplicate for Recipe {
    fn duplicate(&self) -> (r: Recipe) {
        Recipe {
            id: self.id.clone(),
            title: self.title.clone(),
            description: self.description.clone(),
            image_url: duplicate_opt(&self.image_url),
            prep_time: self.prep_time,
            cook_time: self.cook_time,
            servings: self.servings,
            difficulty: self.difficulty,
            category: self.category.clone(),
            tags: duplicate_all(&self.tags),
            ingredients: duplicate_all(&self.ingredients),
            steps: duplicate_all(&self.steps),
            rating_bits: self.rating_bits,
            reviews: duplicate_all(&self.reviews),
            is_favorite: self.is_favorite,
            created_at: self.created_at.clone(),
            updated_at: self.updated_at.clone(),
        }
    }
}

} // verus!
