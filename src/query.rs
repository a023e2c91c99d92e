use vstd::prelude::*;
use core::cmp::Ordering;
use crate::model::{Duplicate, Recipe, RecipeFilters, RecipeFiltersV, RecipeV, SortBy, SortOrder, views};
use crate::text::{compare_strs, contains_str, is_substring, lex_cmp, lex_less, lower_of, lowercase};

verus! {

broadcast use vstd::seq_lib::group_to_multiset_ensures, vstd::seq_lib::to_multiset_insert;

/// The category label that stands for "any category".
pub open spec fn all_label() -> Seq<char> {
    seq!['A', 'l', 'l']
}

/// The lowercased query occurs in the lowercased title, description, category or
/// one of the tags.
pub open spec fn search_matches(r: RecipeV, q: Seq<char>) -> bool {
    let ql = lower_of(q);
    ||| is_substring(ql, lower_of(r.title))
    ||| is_substring(ql, lower_of(r.description))
    ||| is_substring(ql, lower_of(r.category))
    ||| exists|k: int| 0 <= k < r.tags.len() && is_substring(ql, lower_of(#[trigger] r.tags[k]))
}

/// Some wanted tag is among the recipe's tags (exact match).
pub open spec fn tags_overlap(wanted: Seq<Seq<char>>, have: Seq<Seq<char>>) -> bool {
    exists|k: int| 0 <= k < wanted.len() && have.contains(#[trigger] wanted[k])
}

/// The search field, when set, matches the recipe.
pub open spec fn search_ok(r: RecipeV, f: RecipeFiltersV) -> bool {
    match f.search {
        Some(q) => search_matches(r, q),
        None => true,
    }
}

/// The category field, when set, is the sentinel or the recipe's exact category.
pub open spec fn category_ok(r: RecipeV, f: RecipeFiltersV) -> bool {
    match f.category {
        Some(c) => c == all_label() || r.category == c,
        None => true,
    }
}

/// The difficulty field, when set, is the recipe's difficulty.
pub open spec fn difficulty_ok(r: RecipeV, f: RecipeFiltersV) -> bool {
    match f.difficulty {
        Some(d) => r.difficulty == d,
        None => true,
    }
}

/// The recipe's prep time is at most the bound, when one is set.
pub open spec fn prep_time_ok(r: RecipeV, f: RecipeFiltersV) -> bool {
    match f.max_prep_time {
        Some(m) => r.prep_time <= m,
        None => true,
    }
}

/// The tag field, when set and nonempty, shares a tag with the recipe.
pub open spec fn tags_ok(r: RecipeV, f: RecipeFiltersV) -> bool {
    match f.tags {
        Some(t) => t.len() == 0 || tags_overlap(t, r.tags),
        None => true,
    }
}

/// When only favourites are asked for, the recipe is one.
pub open spec fn favorite_ok(r: RecipeV, f: RecipeFiltersV) -> bool {
    match f.only_favorites {
        Some(true) => r.is_favorite,
        _ => true,
    }
}

/// A recipe passes a filter when it meets every field that the filter sets.
pub open spec fn matches_filters(r: RecipeV, f: RecipeFiltersV) -> bool {
    &&& search_ok(r, f)
    &&& category_ok(r, f)
    &&& difficulty_ok(r, f)
    &&& prep_time_ok(r, f)
    &&& tags_ok(r, f)
    &&& favorite_ok(r, f)
}

/// The recipes of `s` that pass `f`, in their order in `s`.
pub open spec fn filtered(s: Seq<RecipeV>, f: RecipeFiltersV) -> Seq<RecipeV> {
    s.filter(|r: RecipeV| matches_filters(r, f))
}


/// The sentinel category label as a string.
pub fn all_label_string() -> (r: String)
    ensures
        r@ == all_label(),
{
    proof {
        reveal_strlit("All");
    }
    "All".to_owned()
}

/// Whether `t` is among `have` (exact match).
pub fn has_tag(have: &Vec<String>, t: &String) -> (r: bool)
    ensures
        r == views(have@).contains(t@),
{
    let mut i: usize = 0;
    while i < have.len()
        invariant
            i <= have.len(),
            forall|j: int| 0 <= j < i ==> (#[trigger] have@[j])@ != t@,
        decreases have.len() - i,
    {
        if have[i] == *t {
            assert(views(have@)[i as int] == t@);
            return true;
        }
        i = i + 1;
    }
    proof {
        if views(have@).contains(t@) {
            let j = choose|j: int| 0 <= j < views(have@).len() && views(have@)[j] == t@;
            assert(have@[j]@ == t@);
        }
    }
    false
}

/// Whether some tag of `wanted` is among `have`.
pub fn shares_tag(wanted: &Vec<String>, have: &Vec<String>) -> (r: bool)
    ensures
        r == tags_overlap(views(wanted@), views(have@)),
{
    let mut i: usize = 0;
    while i < wanted.len()
        invariant
            i <= wanted.len(),
            forall|j: int| 0 <= j < i ==> !views(have@).contains(#[trigger] views(wanted@)[j]),
        decreases wanted.len() - i,
    {
        if has_tag(have, &wanted[i]) {
            assert(views(have@).contains(views(wanted@)[i as int]));
            return true;
        }
        i = i + 1;
    }
    false
}

/// Whether the lowercased query `ql` occurs in the lowercase form of `s`.
fn lowered_contains(s: &String, ql: &String) -> (r: bool)
    ensures
        r == is_substring(ql@, lower_of(s@)),
{
    let ls = lowercase(s.as_str());
    contains_str(ls.as_str(), ql.as_str())
}

/// Whether the query `q` matches the recipe, ignoring case.
pub fn search_hits(recipe: &Recipe, q: &String) -> (r: bool)
    ensures
        r == search_matches(recipe@, q@),
{
    let ql = lowercase(q.as_str());
    if lowered_contains(&recipe.title, &ql) || lowered_contains(&recipe.description, &ql)
        || lowered_contains(&recipe.category, &ql) {
        return true;
    }
    let ghost tv = recipe@.tags;
    let mut k: usize = 0;
    while k < recipe.tags.len()
        invariant
            k <= recipe.tags.len(),
            ql@ == lower_of(q@),
            tv == views(recipe.tags@),
            forall|j: int| 0 <= j < k ==> !is_substring(ql@, lower_of(#[trigger] tv[j])),
        decreases recipe.tags.len() - k,
    {
        if lowered_contains(&recipe.tags[k], &ql) {
            assert(is_substring(ql@, lower_of(recipe@.tags[k as int])));
            return true;
        }
        k = k + 1;
    }
    false
}

/// Whether the recipe passes every field that the filter sets.
pub fn recipe_matches(recipe: &Recipe, filters: &RecipeFilters) -> (r: bool)
    ensures
        r == matches_filters(recipe@, filters@),
{
    if let Some(q) = &filters.search {
        if !search_hits(recipe, q) {
            return false;
        }
    }
    if let Some(c) = &filters.category {
        let all = all_label_string();
        if !(*c == all) && !(recipe.category == *c) {
            return false;
        }
    }
    if let Some(d) = filters.difficulty {
        if recipe.difficulty != d {
            return false;
        }
    }
    if let Some(m) = filters.max_prep_time {
        if recipe.prep_time > m {
            return false;
        }
    }
    if let Some(t) = &filters.tags {
        if t.len() > 0 && !shares_tag(t, &recipe.tags) {
            return false;
        }
    }
    if let Some(only) = filters.only_favorites {
        if only && !recipe.is_favorite {
            return false;
        }
    }
    true
}

/// The recipes that pass the filter, copied, in their original order.
pub fn filter_only(recipes: &Vec<Recipe>, filters: &RecipeFilters) -> (r: Vec<Recipe>)
    ensures
        views(r@) == filtered(views(recipes@), filters@),
{
    let ghost pred = |x: RecipeV| matches_filters(x, filters@);
    let mut out: Vec<Recipe> = Vec::new();
    let mut i: usize = 0;
    while i < recipes.len()
        invariant
            i <= recipes.len(),
            pred == (|x: RecipeV| matches_filters(x, filters@)),
            views(out@) == views(recipes@.subrange(0, i as int)).filter(pred),
        decreases recipes.len() - i,
    {
        let ghost before = views(recipes@.subrange(0, i as int));
        assert(views(recipes@.subrange(0, i + 1)) =~= before.push(recipes@[i as int]@));
        proof {
            before.lemma_filter_push(recipes@[i as int]@, pred);
        }
        if recipe_matches(&recipes[i], filters) {
            let x = recipes[i].duplicate();
            out.push(x);
            assert(views(out@) =~= before.filter(pred).push(recipes@[i as int]@));
        }
        i = i + 1;
    }
    assert(recipes@.subrange(0, i as int) =~= recipes@);
    out
}

/// A rating bit pattern that encodes NaN: all exponent bits set, mantissa nonzero.
pub open spec fn rating_is_nan(bits: u64) -> bool {
    bits % 0x8000_0000_0000_0000 > 0x7FF0_0000_0000_0000
}

/// A signed integer whose order on non-NaN bit patterns is the order of the
/// doubles they encode; both zeros map to 0.
pub open spec fn rating_key(bits: u64) -> int {
    let mag = (bits % 0x8000_0000_0000_0000) as int;
    if bits >= 0x8000_0000_0000_0000 {
        -mag
    } else {
        mag
    }
}

/// The double encoded by `a` is less than the one encoded by `b`; NaN is less
/// than nothing and nothing is less than NaN.
pub open spec fn rating_less(a: u64, b: u64) -> bool {
    !rating_is_nan(a) && !rating_is_nan(b) && rating_key(a) < rating_key(b)
}

/// The strict order that a sort key induces on recipes.
pub open spec fn key_less(by: SortBy, a: RecipeV, b: RecipeV) -> bool {
    match by {
        SortBy::Title => lex_less(lower_of(a.title), lower_of(b.title)),
        SortBy::Rating => rating_less(a.rating_bits, b.rating_bits),
        SortBy::PrepTime => a.prep_time < b.prep_time,
        SortBy::CreatedAt => lex_less(a.created_at, b.created_at),
    }
}

/// The three-way comparison of two recipes by a sort key; pairs that neither
/// precedes (equal keys, or a NaN rating) compare `Equal`.
pub open spec fn key_cmp(by: SortBy, a: RecipeV, b: RecipeV) -> Ordering {
    if key_less(by, a, b) {
        Ordering::Less
    } else if key_less(by, b, a) {
        Ordering::Greater
    } else {
        Ordering::Equal
    }
}

/// `a` must come strictly before `b` under the key and direction.
pub open spec fn precedes(by: SortBy, order: SortOrder, a: RecipeV, b: RecipeV) -> bool {
    match order {
        SortOrder::Asc => key_less(by, a, b),
        SortOrder::Desc => key_less(by, b, a),
    }
}

/// No element must come strictly before its left neighbour.
pub open spec fn sorted_adjacent(s: Seq<RecipeV>, by: SortBy, order: SortOrder) -> bool {
    forall|k: int| 1 <= k < s.len() ==> !precedes(by, order, #[trigger] s[k], s[k - 1])
}

/// The direction in force: ascending when none is given.
pub open spec fn effective_order(o: Option<SortOrder>) -> SortOrder {
    match o {
        Some(x) => x,
        None => SortOrder::Asc,
    }
}

/// No two recipes are each less than the other under a sort key.
pub proof fn lemma_key_asymmetric(by: SortBy, a: RecipeV, b: RecipeV)
    ensures
        !(key_less(by, a, b) && key_less(by, b, a)),
{
    match by {
        SortBy::Title => crate::text::lemma_lex_asymmetric(lower_of(a.title), lower_of(b.title)),
        SortBy::CreatedAt => crate::text::lemma_lex_asymmetric(a.created_at, b.created_at),
        _ => {},
    }
}

/// No rating in `s` is NaN.
pub open spec fn ratings_comparable(s: Seq<RecipeV>) -> bool {
    forall|k: int| 0 <= k < s.len() ==> !rating_is_nan(#[trigger] s[k].rating_bits)
}

/// No element must come strictly before any earlier one.
pub open spec fn sorted_pairwise(s: Seq<RecipeV>, by: SortBy, order: SortOrder) -> bool {
    forall|i: int, j: int| 0 <= i < j < s.len() ==> !precedes(by, order, #[trigger] s[j], #[trigger] s[i])
}

proof fn lemma_lex_negative_transitive(a: Seq<char>, b: Seq<char>, c: Seq<char>)
    requires
        !lex_less(b, a),
        !lex_less(c, b),
    ensures
        !lex_less(c, a),
{
    crate::text::lemma_lex_total(a, b);
    if lex_less(c, a) && a != b {
        crate::text::lemma_lex_transitive(c, a, b);
    }
}

proof fn lemma_precedes_negative_transitive(by: SortBy, order: SortOrder, a: RecipeV, b: RecipeV, c: RecipeV)
    requires
        by != SortBy::Rating || (!rating_is_nan(a.rating_bits) && !rating_is_nan(b.rating_bits)
            && !rating_is_nan(c.rating_bits)),
        !precedes(by, order, b, a),
        !precedes(by, order, c, b),
    ensures
        !precedes(by, order, c, a),
{
    match (by, order) {
        (SortBy::Title, SortOrder::Asc) => lemma_lex_negative_transitive(
            lower_of(a.title),
            lower_of(b.title),
            lower_of(c.title),
        ),
        (SortBy::Title, SortOrder::Desc) => lemma_lex_negative_transitive(
            lower_of(c.title),
            lower_of(b.title),
            lower_of(a.title),
        ),
        (SortBy::CreatedAt, SortOrder::Asc) => lemma_lex_negative_transitive(a.created_at, b.created_at, c.created_at),
        (SortBy::CreatedAt, SortOrder::Desc) => lemma_lex_negative_transitive(c.created_at, b.created_at, a.created_at),
        _ => {},
    }
}

/// An order in which no element must come before its left neighbour is sorted
/// over all pairs, whenever the key is a total preorder on the elements: always
/// but for ratings, and for ratings when none is NaN.
pub proof fn lemma_adjacent_to_pairwise(s: Seq<RecipeV>, by: SortBy, order: SortOrder)
    requires
        sorted_adjacent(s, by, order),
        by != SortBy::Rating || ratings_comparable(s),
    ensures
        sorted_pairwise(s, by, order),
    decreases s.len(),
{
    if s.len() > 1 {
        let t = s.drop_last();
        assert forall|k: int| 1 <= k < t.len() implies !precedes(by, order, #[trigger] t[k], t[k - 1]) by {
            assert(t[k] == s[k] && t[k - 1] == s[k - 1]);
        }
        assert(by != SortBy::Rating || ratings_comparable(t)) by {
            if by == SortBy::Rating {
                assert forall|k: int| 0 <= k < t.len() implies !rating_is_nan(#[trigger] t[k].rating_bits) by {
                    assert(t[k] == s[k]);
                }
            }
        }
        lemma_adjacent_to_pairwise(t, by, order);
        let n = s.len() - 1;
        assert forall|i: int, j: int| 0 <= i < j < s.len() implies !precedes(by, order, #[trigger] s[j], #[trigger] s[i]) by {
            if j < n {
                assert(t[i] == s[i] && t[j] == s[j]);
            } else if i < n - 1 {
                assert(t[i] == s[i] && t[n - 1] == s[n - 1]);
                assert(!precedes(by, order, s[n], s[n - 1]));
                lemma_precedes_negative_transitive(by, order, s[i], s[n - 1], s[n]);
            }
        }
    }
}

/// Compares two ratings given as IEEE-754 bit patterns, as `f64::partial_cmp`
/// does, with a NaN on either side comparing `Equal`.
pub fn compare_ratings(a: u64, b: u64) -> (r: Ordering)
    ensures
        r == (if rating_less(a, b) {
            Ordering::Less
        } else if rating_less(b, a) {
            Ordering::Greater
        } else {
            Ordering::Equal
        }),
{
    let ma = a % 0x8000_0000_0000_0000;
    let mb = b % 0x8000_0000_0000_0000;
    if ma > 0x7FF0_0000_0000_0000 || mb > 0x7FF0_0000_0000_0000 {
        return Ordering::Equal;
    }
    let ka: i64 = if a >= 0x8000_0000_0000_0000 { -(ma as i64) } else { ma as i64 };
    let kb: i64 = if b >= 0x8000_0000_0000_0000 { -(mb as i64) } else { mb as i64 };
    if ka < kb {
        Ordering::Less
    } else if kb < ka {
        Ordering::Greater
    } else {
        Ordering::Equal
    }
}

/// Compares two recipes by a sort key.
pub fn compare_recipes(a: &Recipe, b: &Recipe, by: SortBy) -> (r: Ordering)
    ensures
        r == key_cmp(by, a@, b@),
{
    proof {
        lemma_key_asymmetric(by, a@, b@);
    }
    match by {
        SortBy::Title => {
            let la = lowercase(a.title.as_str());
            let lb = lowercase(b.title.as_str());
            compare_strs(la.as_str(), lb.as_str())
        },
        SortBy::Rating => compare_ratings(a.rating_bits, b.rating_bits),
        SortBy::PrepTime => {
            if a.prep_time < b.prep_time {
                Ordering::Less
            } else if b.prep_time < a.prep_time {
                Ordering::Greater
            } else {
                Ordering::Equal
            }
        },
        SortBy::CreatedAt => compare_strs(a.created_at.as_str(), b.created_at.as_str()),
    }
}

/// Whether `a` must come strictly before `b`; descending reverses each comparison.
pub fn comes_before(a: &Recipe, b: &Recipe, by: SortBy, order: SortOrder) -> (r: bool)
    ensures
        r == precedes(by, order, a@, b@),
{
    proof {
        lemma_key_asymmetric(by, a@, b@);
    }
    let c = compare_recipes(a, b, by);
    match order {
        SortOrder::Asc => match c {
            Ordering::Less => true,
            _ => false,
        },
        SortOrder::Desc => match c {
            Ordering::Greater => true,
            _ => false,
        },
    }
}

/// `perm` maps each position of `r` to a distinct position of `v` holding the
/// same record, and whenever an earlier record of `r` does not strictly precede a
/// later one, the two stand in `v` in the same order.
pub open spec fn stable_witness(
    r: Seq<RecipeV>,
    v: Seq<RecipeV>,
    by: SortBy,
    order: SortOrder,
    perm: Seq<int>,
) -> bool {
    &&& perm.len() == r.len()
    &&& forall|k: int| 0 <= k < r.len() ==> 0 <= #[trigger] perm[k] < v.len() && r[k] == v[perm[k]]
    &&& forall|a: int, b: int| 0 <= a < b < r.len() ==> #[trigger] perm[a] != #[trigger] perm[b]
    &&& forall|a: int, b: int|
        0 <= a < b < r.len() && !precedes(by, order, #[trigger] r[a], #[trigger] r[b]) ==> perm[a] < perm[b]
}

/// Orders copies of the recipes by key and direction. The sort is stable: it
/// inserts each recipe after every earlier one that it does not strictly precede,
/// so recipes that compare equal (under either direction) keep their order.
pub fn sort_recipes(v: &Vec<Recipe>, by: SortBy, order: SortOrder) -> (r: Vec<Recipe>)
    ensures
        views(r@).to_multiset() == views(v@).to_multiset(),
        sorted_adjacent(views(r@), by, order),
        by != SortBy::Rating || ratings_comparable(views(v@)) ==> sorted_pairwise(views(r@), by, order),
        exists|perm: Seq<int>| stable_witness(views(r@), views(v@), by, order, perm),
{
    let mut out: Vec<Recipe> = Vec::new();
    let ghost mut perm: Seq<int> = Seq::empty();
    let mut i: usize = 0;
    while i < v.len()
        invariant
            i <= v.len(),
            stable_witness(views(out@), views(v@), by, order, perm),
            forall|k: int| 0 <= k < perm.len() ==> #[trigger] perm[k] < i,
            views(out@).to_multiset() == views(v@.subrange(0, i as int)).to_multiset(),
            sorted_adjacent(views(out@), by, order),
        decreases v.len() - i,
    {
        let x = v[i].duplicate();
        let mut p: usize = out.len();
        while p > 0 && comes_before(&x, &out[p - 1], by, order)
            invariant
                p <= out.len(),
                forall|q: int| p <= q < out.len() ==> precedes(by, order, x@, #[trigger] out@[q]@),
            decreases p,
        {
            p = p - 1;
        }
        let ghost o = views(out@);
        proof {
            if p < out.len() {
                lemma_key_asymmetric(by, x@, out@[p as int]@);
            }
        }
        out.insert(p, x);
        let ghost n = views(out@);
        assert(n =~= o.insert(p as int, x@));
        let ghost op = perm;
        proof {
            perm = op.insert(p as int, i as int);
            let vs = views(v@);
            assert forall|k: int| 0 <= k < n.len() implies 0 <= #[trigger] perm[k] < vs.len() && n[k] == vs[perm[k]] by {
                if k < p {
                    assert(perm[k] == op[k] && n[k] == o[k]);
                } else if k > p {
                    assert(perm[k] == op[k - 1] && n[k] == o[k - 1]);
                }
            }
            assert forall|a: int, b: int| 0 <= a < b < n.len() implies #[trigger] perm[a] != #[trigger] perm[b] by {
                if a < p && b < p {
                } else if a < p && b == p {
                    assert(op[a] < i);
                } else if a < p {
                    assert(perm[b] == op[b - 1]);
                } else if a == p {
                    assert(perm[b] == op[b - 1] && op[b - 1] < i);
                } else {
                    assert(perm[a] == op[a - 1] && perm[b] == op[b - 1]);
                }
            }
            assert forall|a: int, b: int|
                0 <= a < b < n.len() && !precedes(by, order, #[trigger] n[a], #[trigger] n[b]) implies perm[a] < perm[b] by {
                if a < p && b < p {
                    assert(n[a] == o[a] && n[b] == o[b]);
                } else if a < p && b == p {
                    assert(op[a] < i);
                } else if a < p {
                    assert(perm[b] == op[b - 1] && n[a] == o[a] && n[b] == o[b - 1]);
                } else if a == p {
                    assert(n[b] == o[b - 1]);
                    assert(precedes(by, order, x@, out@[b]@));
                } else {
                    assert(perm[a] == op[a - 1] && perm[b] == op[b - 1] && n[a] == o[a - 1] && n[b] == o[b - 1]);
                }
            }
            assert forall|k: int| 0 <= k < perm.len() implies #[trigger] perm[k] < i + 1 by {
                if k < p {
                    assert(perm[k] == op[k]);
                } else if k > p {
                    assert(perm[k] == op[k - 1]);
                }
            }
        }
        assert(views(v@.subrange(0, i + 1)) =~= views(v@.subrange(0, i as int)).push(v@[i as int]@));
        assert forall|k: int| 1 <= k < n.len() implies !precedes(by, order, #[trigger] n[k], n[k - 1]) by {
            if k < p {
                assert(n[k] == o[k] && n[k - 1] == o[k - 1]);
            } else if k == p {
            } else if k == p + 1 {
            } else {
                assert(n[k] == o[k - 1] && n[k - 1] == o[k - 2]);
            }
        }
        i = i + 1;
    }
    assert(v@.subrange(0, i as int) =~= v@);
    proof {
        let rs = views(out@);
        let vs = views(v@);
        if by != SortBy::Rating || ratings_comparable(vs) {
            if by == SortBy::Rating {
                assert forall|k: int| 0 <= k < rs.len() implies !rating_is_nan(#[trigger] rs[k].rating_bits) by {
                    assert(rs.to_multiset().count(rs[k]) > 0);
                    assert(vs.contains(rs[k]));
                }
            }
            lemma_adjacent_to_pairwise(rs, by, order);
        }
    }
    out
}

/// The recipes that pass the filter, in store order when no key is given, and
/// otherwise ordered by the key and direction (ascending when none is given).
pub fn filter_recipes(
    recipes: &Vec<Recipe>,
    filters: &RecipeFilters,
    sort_by: Option<SortBy>,
    sort_order: Option<SortOrder>,
) -> (r: Vec<Recipe>)
    ensures
        sort_by is None ==> views(r@) == filtered(views(recipes@), filters@),
        sort_by is Some ==> views(r@).to_multiset() == filtered(views(recipes@), filters@).to_multiset()
            && sorted_adjacent(views(r@), sort_by->0, effective_order(sort_order))
            && (exists|perm: Seq<int>|
            stable_witness(
                views(r@),
                filtered(views(recipes@), filters@),
                sort_by->0,
                effective_order(sort_order),
                perm,
            )),
        sort_by is Some && (sort_by->0 != SortBy::Rating || ratings_comparable(
            filtered(views(recipes@), filters@),
        )) ==> sorted_pairwise(views(r@), sort_by->0, effective_order(sort_order)),
{
    let chosen = filter_only(recipes, filters);
    match sort_by {
        None => chosen,
        Some(by) => {
            let order = match sort_order {
                Some(o) => o,
                None => SortOrder::Asc,
            };
            sort_recipes(&chosen, by, order)
        },
    }
}

/// Every element is strictly less than every later one: sorted, no duplicates.
pub open spec fn strictly_sorted(s: Seq<Seq<char>>) -> bool {
    forall|i: int, j: int| 0 <= i < j < s.len() ==> lex_less(#[trigger] s[i], #[trigger] s[j])
}

/// `c` is the category of some recipe of `s`.
pub open spec fn has_category(s: Seq<RecipeV>, c: Seq<char>) -> bool {
    exists|i: int| 0 <= i < s.len() && #[trigger] s[i].category == c
}

/// `t` is a tag of some recipe of `s`.
pub open spec fn has_tag_in(s: Seq<RecipeV>, t: Seq<char>) -> bool {
    exists|i: int| 0 <= i < s.len() && #[trigger] s[i].tags.contains(t)
}

/// Adds `x` to a strictly sorted list at its place, unless it is already there.
pub fn insert_sorted_unique(out: &mut Vec<String>, x: &String)
    requires
        strictly_sorted(views(old(out)@)),
    ensures
        strictly_sorted(views(final(out)@)),
        forall|y: Seq<char>| #[trigger] views(final(out)@).contains(y) <==> (views(old(out)@).contains(y) || y == x@),
{
    let ghost o = views(out@);
    let mut p: usize = 0;
    let mut c = Ordering::Less;
    loop
        invariant
            p <= out.len(),
            out@ == old(out)@,
            o == views(out@),
            forall|j: int| 0 <= j < p ==> lex_less(#[trigger] o[j], x@),
        ensures
            p <= out.len(),
            forall|j: int| 0 <= j < p ==> lex_less(#[trigger] o[j], x@),
            p < out.len() ==> c == lex_cmp(o[p as int], x@) && c != Ordering::Less,
        decreases out.len() - p,
    {
        if p == out.len() {
            break;
        }
        c = compare_strs(out[p].as_str(), x.as_str());
        match c {
            Ordering::Less => {},
            _ => {
                break;
            },
        }
        p = p + 1;
    }
    if p < out.len() {
        if let Ordering::Equal = c {
            proof {
                crate::text::lemma_lex_total(o[p as int], x@);
                assert(o[p as int] == x@);
            }
            return;
        }
    }
    proof {
        if p < o.len() {
            crate::text::lemma_lex_asymmetric(o[p as int], x@);
        }
    }
    out.insert(p, x.clone());
    let ghost n = views(out@);
    assert(n =~= o.insert(p as int, x@));
    assert forall|i: int, j: int| 0 <= i < j < n.len() implies lex_less(#[trigger] n[i], #[trigger] n[j]) by {
        if j < p {
            assert(n[i] == o[i] && n[j] == o[j]);
        } else if j == p {
            assert(n[i] == o[i]);
        } else if i == p {
            assert(n[j] == o[j - 1]);
            if j - 1 > p {
                crate::text::lemma_lex_transitive(x@, o[p as int], o[j - 1]);
            }
        } else if i < p {
            assert(n[i] == o[i] && n[j] == o[j - 1]);
        } else {
            assert(n[i] == o[i - 1] && n[j] == o[j - 1]);
        }
    }
    assert forall|y: Seq<char>| #[trigger] n.contains(y) <==> (o.contains(y) || y == x@) by {
        if n.contains(y) {
            let k = choose|k: int| 0 <= k < n.len() && n[k] == y;
            if k < p {
                assert(o[k] == y);
            } else if k > p {
                assert(o[k - 1] == y);
            }
        }
        if o.contains(y) {
            let k = choose|k: int| 0 <= k < o.len() && o[k] == y;
            if k < p {
                assert(n[k] == y);
            } else {
                assert(n[k + 1] == y);
            }
        }
        if y == x@ {
            assert(n[p as int] == y);
        }
    }
}

/// The distinct categories of the recipes, sorted, after the sentinel "All".
pub fn get_categories(recipes: &Vec<Recipe>) -> (r: Vec<String>)
    ensures
        r@.len() >= 1,
        r@[0]@ == all_label(),
        strictly_sorted(views(r@).drop_first()),
        forall|c: Seq<char>| #[trigger] views(r@).drop_first().contains(c) <==> has_category(views(recipes@), c),
{
    let ghost s = views(recipes@);
    let mut out: Vec<String> = Vec::new();
    let mut i: usize = 0;
    while i < recipes.len()
        invariant
            i <= recipes.len(),
            s == views(recipes@),
            strictly_sorted(views(out@)),
            forall|c: Seq<char>| #[trigger] views(out@).contains(c) <==> has_category(s.subrange(0, i as int), c),
        decreases recipes.len() - i,
    {
        insert_sorted_unique(&mut out, &recipes[i].category);
        assert forall|c: Seq<char>| #[trigger] views(out@).contains(c) <==> has_category(s.subrange(0, i + 1), c) by {
            let pre = s.subrange(0, i as int);
            let post = s.subrange(0, i + 1);
            if has_category(post, c) {
                let k = choose|k: int| 0 <= k < post.len() && #[trigger] post[k].category == c;
                if k < i {
                    assert(pre[k].category == c);
                }
            }
            if has_category(pre, c) {
                let k = choose|k: int| 0 <= k < pre.len() && #[trigger] pre[k].category == c;
                assert(post[k].category == c);
            }
            assert(post[i as int].category == recipes@[i as int].category@);
        }
        i = i + 1;
    }
    assert(s.subrange(0, i as int) =~= s);
    let ghost o = views(out@);
    out.insert(0, all_label_string());
    assert(views(out@).drop_first() =~= o);
    out
}

/// The distinct tags of the recipes, sorted.
pub fn get_all_tags(recipes: &Vec<Recipe>) -> (r: Vec<String>)
    ensures
        strictly_sorted(views(r@)),
        forall|t: Seq<char>| #[trigger] views(r@).contains(t) <==> has_tag_in(views(recipes@), t),
{
    let ghost s = views(recipes@);
    let mut out: Vec<String> = Vec::new();
    let mut i: usize = 0;
    while i < recipes.len()
        invariant
            i <= recipes.len(),
            s == views(recipes@),
            strictly_sorted(views(out@)),
            forall|t: Seq<char>| #[trigger] views(out@).contains(t) <==> has_tag_in(s.subrange(0, i as int), t),
        decreases recipes.len() - i,
    {
        let tags = &recipes[i].tags;
        let ghost tv = views(tags@);
        let mut k: usize = 0;
        while k < tags.len()
            invariant
                i < recipes.len(),
                s == views(recipes@),
                tags == &recipes@[i as int].tags,
                tv == views(tags@),
                k <= tags.len(),
                strictly_sorted(views(out@)),
                forall|t: Seq<char>| #[trigger] views(out@).contains(t) <==> (has_tag_in(s.subrange(0, i as int), t)
                    || tv.subrange(0, k as int).contains(t)),
            decreases tags.len() - k,
        {
            insert_sorted_unique(&mut out, &tags[k]);
            assert forall|t: Seq<char>| #[trigger] views(out@).contains(t) <==> (has_tag_in(s.subrange(0, i as int), t)
                || tv.subrange(0, k + 1).contains(t)) by {
                if tv.subrange(0, k + 1).contains(t) {
                    let m = choose|m: int| 0 <= m < k + 1 && #[trigger] tv.subrange(0, k + 1)[m] == t;
                    if m < k {
                        assert(tv.subrange(0, k as int)[m] == t);
                    }
                }
                if tv.subrange(0, k as int).contains(t) {
                    let m = choose|m: int| 0 <= m < k && #[trigger] tv.subrange(0, k as int)[m] == t;
                    assert(tv.subrange(0, k + 1)[m] == t);
                }
                assert(tv.subrange(0, k + 1)[k as int] == tags@[k as int]@);
            }
            k = k + 1;
        }
        assert(tv.subrange(0, k as int) =~= s[i as int].tags);
        assert forall|t: Seq<char>| #[trigger] views(out@).contains(t) <==> has_tag_in(s.subrange(0, i + 1), t) by {
            let pre = s.subrange(0, i as int);
            let post = s.subrange(0, i + 1);
            if has_tag_in(post, t) {
                let m = choose|m: int| 0 <= m < post.len() && #[trigger] post[m].tags.contains(t);
                if m < i {
                    assert(pre[m].tags.contains(t));
                }
            }
            if has_tag_in(pre, t) {
                let m = choose|m: int| 0 <= m < pre.len() && #[trigger] pre[m].tags.contains(t);
                assert(post[m].tags.contains(t));
            }
            assert(post[i as int] == s[i as int]);
        }
        i = i + 1;
    }
    assert(s.subrange(0, i as int) =~= s);
    out
}

/// A filter that sets no field.
pub open spec fn is_unconstrained(f: RecipeFiltersV) -> bool {
    &&& f.search is None
    &&& f.category is None
    &&& f.difficulty is None
    &&& f.max_prep_time is None
    &&& f.tags is None
    &&& f.only_favorites is None
}

/// The same filter with the category field left out.
pub open spec fn without_category(f: RecipeFiltersV) -> RecipeFiltersV {
    RecipeFiltersV {
        search: f.search,
        category: None,
        difficulty: f.difficulty,
        max_prep_time: f.max_prep_time,
        tags: f.tags,
        only_favorites: f.only_favorites,
    }
}

/// A filter that sets no field keeps every record, in store order.
pub proof fn lemma_unconstrained_filter_keeps_all(s: Seq<RecipeV>, f: RecipeFiltersV)
    requires
        is_unconstrained(f),
    ensures
        filtered(s, f) == s,
    decreases s.len(),
{
    let pred = |r: RecipeV| matches_filters(r, f);
    if s.len() == 0 {
        reveal(Seq::filter);
        assert(s.filter(pred) =~= s);
    } else {
        let t = s.drop_last();
        lemma_unconstrained_filter_keeps_all(t, f);
        assert(t.push(s.last()) =~= s);
        t.lemma_filter_push(s.last(), pred);
    }
}

/// Filtering by the category "All" is the same as not filtering by category.
pub proof fn lemma_all_category_is_unconstrained(s: Seq<RecipeV>, f: RecipeFiltersV)
    requires
        f.category == Some(all_label()),
    ensures
        filtered(s, f) == filtered(s, without_category(f)),
{
    let p1 = |r: RecipeV| matches_filters(r, f);
    let p2 = |r: RecipeV| matches_filters(r, without_category(f));
    assert(p1 =~= p2);
}

} // verus!
