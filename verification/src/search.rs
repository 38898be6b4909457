//! The scoring engine: scores a query against every category and item of
//! the dataset, collects the strong matches into ranked lists, and
//! classifies the response by the globally best-scoring candidate kind.
//!
//! Similarity scores are supplied by the caller as plain integers in
//! thousandths (1000 stands for a perfect match): one score per category
//! name, and for each item one score per short name followed by one for
//! the primary name.

use vstd::prelude::*;
use vstd::multiset::Multiset;

use crate::consts::SEARCH_SCORE_THRESHOLD;
use crate::text::{lex_le, views_of, lemma_lex_le_total, lemma_lex_le_trans, str_le};

verus! {

/// Category definition held by the dataset.
pub struct SearchBackendCategory {
    /// Category name
    pub name: String,
    /// Category description
    pub text: String,
}

/// Item definition held by the dataset.
pub struct SearchBackendItem {
    /// Category membership for item
    pub categories: Vec<String>,
    /// External links as strings. Supports markdown [pretty](url) links.
    pub ext_links: Vec<String>,
    /// Primary article name
    pub name: String,
    /// Short / abbreviated names
    pub shortname: Vec<String>,
    /// Result body text
    pub text: String,
}

/// The full dataset: every category and item that a query is scored
/// against. Loaded once at startup and never mutated.
pub struct SearchBackendData {
    /// All categories
    pub categories: Vec<SearchBackendCategory>,
    /// All items
    pub search_results: Vec<SearchBackendItem>,
}

/// Best guess from a search.
#[derive(Clone, Debug, PartialEq)]
pub enum RenderType {
    /// Render category results
    Category,
    /// Render a best guess string.
    Guess(Option<String>),
    /// Render item results.
    Result,
}

/// Mathematical counterpart of [`RenderType`]: the guess payload is a
/// character sequence.
pub enum RenderTypeView {
    /// Render category results
    Category,
    /// Render a best guess string.
    Guess(Option<Seq<char>>),
    /// Render item results.
    Result,
}

impl View for RenderType {
    type V = RenderTypeView;

    open spec fn view(&self) -> RenderTypeView {
        match self {
            RenderType::Category => RenderTypeView::Category,
            RenderType::Guess(None) => RenderTypeView::Guess(None),
            RenderType::Guess(Some(s)) => RenderTypeView::Guess(Some(s@)),
            RenderType::Result => RenderTypeView::Result,
        }
    }
}

/// Search result for a category
#[derive(Clone, Debug, PartialEq)]
pub struct CategoryResult {
    /// Names of the items that belong to this category.
    pub members: Vec<String>,
    /// Category name
    pub name: String,
    /// Relevance score in thousandths
    pub score: u32,
    /// Text description of the category.
    pub text: String,
}

/// Mathematical counterpart of [`CategoryResult`].
pub struct CategoryResultView {
    /// Names of the items that belong to this category.
    pub members: Seq<Seq<char>>,
    /// Category name
    pub name: Seq<char>,
    /// Relevance score in thousandths
    pub score: u32,
    /// Text description of the category.
    pub text: Seq<char>,
}

impl View for CategoryResult {
    type V = CategoryResultView;

    open spec fn view(&self) -> CategoryResultView {
        CategoryResultView {
            members: views_of(self.members@),
            name: self.name@,
            score: self.score,
            text: self.text@,
        }
    }
}

/// Search result struct
#[derive(Clone, Debug, PartialEq)]
pub struct SearchResult {
    /// Category membership for item
    pub categories: Vec<String>,
    /// External links as strings. Supports markdown [pretty](url) links.
    pub ext_links: Vec<String>,
    /// Primary article name
    pub name: String,
    /// Relevance score in thousandths, calculated from name and shortname
    /// matches.
    pub score: u32,
    /// Short / abbreviated names
    pub shortname: Vec<String>,
    /// Result body text
    pub text: String,
}

/// Mathematical counterpart of [`SearchResult`].
pub struct SearchResultView {
    /// Category membership for item
    pub categories: Seq<Seq<char>>,
    /// External links
    pub ext_links: Seq<Seq<char>>,
    /// Primary article name
    pub name: Seq<char>,
    /// Relevance score in thousandths
    pub score: u32,
    /// Short / abbreviated names
    pub shortname: Seq<Seq<char>>,
    /// Result body text
    pub text: Seq<char>,
}

impl View for SearchResult {
    type V = SearchResultView;

    open spec fn view(&self) -> SearchResultView {
        SearchResultView {
            categories: views_of(self.categories@),
            ext_links: views_of(self.ext_links@),
            name: self.name@,
            score: self.score,
            shortname: views_of(self.shortname@),
            text: self.text@,
        }
    }
}

/// Search response (containing all relevant results).
#[derive(Clone, Debug)]
pub struct SearchResponse {
    /// Category results, sorted by score
    pub category_results: Vec<CategoryResult>,
    /// Currently rendered result index
    pub index: usize,
    /// The query as the caller gave it
    pub query: String,
    /// The default render type for this response, based on the best
    /// scoring result type.
    pub render_type: RenderType,
    /// Search results for a query, sorted by score
    pub results: Vec<SearchResult>,
}

/// Mathematical counterpart of [`SearchResponse`].
pub struct SearchResponseView {
    /// Category results, sorted by score
    pub category_results: Seq<CategoryResultView>,
    /// Currently rendered result index
    pub index: int,
    /// The query as the caller gave it
    pub query: Seq<char>,
    /// The classification of the response
    pub render_type: RenderTypeView,
    /// Item results, sorted by score
    pub results: Seq<SearchResultView>,
}

/// The views of a list of category results.
pub open spec fn cat_views(s: Seq<CategoryResult>) -> Seq<CategoryResultView> {
    s.map_values(|c: CategoryResult| c@)
}

/// The views of a list of item results.
pub open spec fn res_views(s: Seq<SearchResult>) -> Seq<SearchResultView> {
    s.map_values(|r: SearchResult| r@)
}

/// The views of a list of per-name score lists.
pub open spec fn score_views(s: Seq<Vec<u32>>) -> Seq<Seq<u32>> {
    s.map_values(|v: Vec<u32>| v@)
}

impl View for SearchResponse {
    type V = SearchResponseView;

    open spec fn view(&self) -> SearchResponseView {
        SearchResponseView {
            category_results: cat_views(self.category_results@),
            index: self.index as int,
            query: self.query@,
            render_type: self.render_type@,
            results: res_views(self.results@),
        }
    }
}

/// The greatest score in a list, or zero when the list is empty.
pub open spec fn max_score(s: Seq<u32>) -> u32
    decreases s.len(),
{
    if s.len() == 0 {
        0
    } else {
        let m = max_score(s.drop_last());
        if s.last() > m {
            s.last()
        } else {
            m
        }
    }
}

/// Running state of the scan that decides the classification: the best
/// score seen so far across both candidate kinds, and the render type
/// held by that best candidate.
pub struct ScanState {
    /// Best score seen so far, in thousandths.
    pub best: u32,
    /// Render type of the best candidate seen so far.
    pub render: RenderTypeView,
}

/// State before any candidate has been scanned.
pub open spec fn scan_init() -> ScanState {
    ScanState { best: 0, render: RenderTypeView::Guess(None) }
}

/// One scan step: a strong match (score above the threshold) that
/// improves on the best score claims the classification for its own
/// kind; a weak one that improves on it becomes the guess candidate.
pub open spec fn scan_step(
    st: ScanState,
    name: Seq<char>,
    strong_render: RenderTypeView,
    score: u32,
) -> ScanState {
    if score > SEARCH_SCORE_THRESHOLD {
        if score > st.best {
            ScanState { best: score, render: strong_render }
        } else {
            st
        }
    } else {
        if score > st.best {
            ScanState { best: score, render: RenderTypeView::Guess(Some(name)) }
        } else {
            st
        }
    }
}

/// Scan state after the first `n` categories.
pub open spec fn scan_categories(
    cats: Seq<SearchBackendCategory>,
    scores: Seq<u32>,
    n: int,
) -> ScanState
    decreases n,
{
    if n <= 0 {
        scan_init()
    } else {
        scan_step(
            scan_categories(cats, scores, n - 1),
            cats[n - 1].name@,
            RenderTypeView::Category,
            scores[n - 1],
        )
    }
}

/// Scan state after the first `n` items, starting from the state the
/// category scan ended in.
pub open spec fn scan_items(
    items: Seq<SearchBackendItem>,
    scores: Seq<Seq<u32>>,
    n: int,
    st0: ScanState,
) -> ScanState
    decreases n,
{
    if n <= 0 {
        st0
    } else {
        scan_step(
            scan_items(items, scores, n - 1, st0),
            items[n - 1].name@,
            RenderTypeView::Result,
            max_score(scores[n - 1]),
        )
    }
}

/// Scan state after the whole dataset: categories first, then items,
/// sharing one running best score.
pub open spec fn scan_all(
    cats: Seq<SearchBackendCategory>,
    items: Seq<SearchBackendItem>,
    cat_scores: Seq<u32>,
    item_scores: Seq<Seq<u32>>,
) -> ScanState {
    scan_items(
        items,
        item_scores,
        items.len() as int,
        scan_categories(cats, cat_scores, cats.len() as int),
    )
}

/// The names of the items whose category membership contains `cat`, in
/// dataset order.
pub open spec fn member_names(items: Seq<SearchBackendItem>, cat: Seq<char>) -> Seq<Seq<char>>
    decreases items.len(),
{
    if items.len() == 0 {
        Seq::empty()
    } else {
        member_names(items.drop_last(), cat) + (if views_of(
            items.last().categories@,
        ).contains(cat) {
            seq![items.last().name@]
        } else {
            Seq::<Seq<char>>::empty()
        })
    }
}

/// The category result built for category `i` of the dataset.
pub open spec fn category_result_at(
    cats: Seq<SearchBackendCategory>,
    items: Seq<SearchBackendItem>,
    scores: Seq<u32>,
    i: int,
) -> CategoryResultView {
    CategoryResultView {
        members: member_names(items, cats[i].name@),
        name: cats[i].name@,
        score: scores[i],
        text: cats[i].text@,
    }
}

/// The strong-match category results among the first `n` categories, in
/// scan order.
pub open spec fn strong_category_results(
    cats: Seq<SearchBackendCategory>,
    items: Seq<SearchBackendItem>,
    scores: Seq<u32>,
    n: int,
) -> Seq<CategoryResultView>
    decreases n,
{
    if n <= 0 {
        Seq::empty()
    } else {
        strong_category_results(cats, items, scores, n - 1) + (if scores[n - 1]
            > SEARCH_SCORE_THRESHOLD {
            seq![category_result_at(cats, items, scores, n - 1)]
        } else {
            Seq::<CategoryResultView>::empty()
        })
    }
}

/// The item result built for item `i` of the dataset.
pub open spec fn item_result_at(
    items: Seq<SearchBackendItem>,
    scores: Seq<Seq<u32>>,
    i: int,
) -> SearchResultView {
    SearchResultView {
        categories: views_of(items[i].categories@),
        ext_links: views_of(items[i].ext_links@),
        name: items[i].name@,
        score: max_score(scores[i]),
        shortname: views_of(items[i].shortname@),
        text: items[i].text@,
    }
}

/// The strong-match item results among the first `n` items, in scan
/// order.
pub open spec fn strong_item_results(
    items: Seq<SearchBackendItem>,
    scores: Seq<Seq<u32>>,
    n: int,
) -> Seq<SearchResultView>
    decreases n,
{
    if n <= 0 {
        Seq::empty()
    } else {
        strong_item_results(items, scores, n - 1) + (if max_score(scores[n - 1])
            > SEARCH_SCORE_THRESHOLD {
            seq![item_result_at(items, scores, n - 1)]
        } else {
            Seq::<SearchResultView>::empty()
        })
    }
}

/// The ranking order: higher scores first, and on equal scores the
/// lexicographically greater name first, so that ties are deterministic.
pub open spec fn result_le(
    score_a: u32,
    name_a: Seq<char>,
    score_b: u32,
    name_b: Seq<char>,
) -> bool {
    score_a > score_b || (score_a == score_b && lex_le(name_b, name_a))
}

/// Any two ranked entries are ordered one way or the other.
pub proof fn lemma_result_le_total(sa: u32, na: Seq<char>, sb: u32, nb: Seq<char>)
    ensures
        result_le(sa, na, sb, nb) || result_le(sb, nb, sa, na),
{
    lemma_lex_le_total(na, nb);
}

/// The ranking order is transitive.
pub proof fn lemma_result_le_trans(
    sa: u32,
    na: Seq<char>,
    sb: u32,
    nb: Seq<char>,
    sc: u32,
    nc: Seq<char>,
)
    requires
        result_le(sa, na, sb, nb),
        result_le(sb, nb, sc, nc),
    ensures
        result_le(sa, na, sc, nc),
{
    if sa == sb && sb == sc {
        lemma_lex_le_trans(nc, nb, na);
    }
}

/// As long as some category is a strong match, the category scan ends
/// with a best score above the threshold and a category-led
/// classification; until then the best score stays at or below the
/// threshold.
pub proof fn lemma_scan_categories_strength(
    cats: Seq<SearchBackendCategory>,
    items: Seq<SearchBackendItem>,
    cs: Seq<u32>,
    n: int,
)
    ensures
        strong_category_results(cats, items, cs, n).len() == 0 ==> scan_categories(
            cats,
            cs,
            n,
        ).best <= SEARCH_SCORE_THRESHOLD,
        strong_category_results(cats, items, cs, n).len() >= 1 ==> scan_categories(
            cats,
            cs,
            n,
        ).best > SEARCH_SCORE_THRESHOLD && scan_categories(cats, cs, n).render
            == RenderTypeView::Category,
    decreases n,
{
    if n > 0 {
        lemma_scan_categories_strength(cats, items, cs, n - 1);
    }
}

/// A scan phase that meets no strong item cannot displace a best
/// candidate that already scored above the threshold.
pub proof fn lemma_scan_items_all_weak(
    items: Seq<SearchBackendItem>,
    isv: Seq<Seq<u32>>,
    n: int,
    st0: ScanState,
)
    requires
        strong_item_results(items, isv, n).len() == 0,
        st0.best > SEARCH_SCORE_THRESHOLD,
    ensures
        scan_items(items, isv, n, st0) == st0,
    decreases n,
{
    if n > 0 {
        assert(strong_item_results(items, isv, n - 1).len() == 0);
        lemma_scan_items_all_weak(items, isv, n - 1, st0);
    }
}

/// A scan that finds at least one strong category and no strong item
/// classifies the response category-led.
pub proof fn lemma_category_best(
    cats: Seq<SearchBackendCategory>,
    items: Seq<SearchBackendItem>,
    cs: Seq<u32>,
    isv: Seq<Seq<u32>>,
)
    requires
        strong_category_results(cats, items, cs, cats.len() as int).len() >= 1,
        strong_item_results(items, isv, items.len() as int).len() == 0,
    ensures
        scan_all(cats, items, cs, isv).render == RenderTypeView::Category,
{
    lemma_scan_categories_strength(cats, items, cs, cats.len() as int);
    lemma_scan_items_all_weak(
        items,
        isv,
        items.len() as int,
        scan_categories(cats, cs, cats.len() as int),
    );
}

/// At most one category result arises per scanned category.
pub proof fn lemma_strong_category_results_len(
    cats: Seq<SearchBackendCategory>,
    items: Seq<SearchBackendItem>,
    cs: Seq<u32>,
    n: int,
)
    ensures
        strong_category_results(cats, items, cs, n).len() <= if n >= 0 {
            n
        } else {
            0
        },
    decreases n,
{
    if n > 0 {
        lemma_strong_category_results_len(cats, items, cs, n - 1);
    }
}

/// At most one item result arises per scanned item.
pub proof fn lemma_strong_item_results_len(
    items: Seq<SearchBackendItem>,
    isv: Seq<Seq<u32>>,
    n: int,
)
    ensures
        strong_item_results(items, isv, n).len() <= if n >= 0 {
            n
        } else {
            0
        },
    decreases n,
{
    if n > 0 {
        lemma_strong_item_results_len(items, isv, n - 1);
    }
}

/// Category results sorted by the ranking order.
pub open spec fn cats_sorted(s: Seq<CategoryResultView>) -> bool {
    forall|i: int, j: int|
        0 <= i < j < s.len() ==> result_le(s[i].score, s[i].name, s[j].score, s[j].name)
}

/// Item results sorted by the ranking order.
pub open spec fn results_sorted(s: Seq<SearchResultView>) -> bool {
    forall|i: int, j: int|
        0 <= i < j < s.len() ==> result_le(s[i].score, s[i].name, s[j].score, s[j].name)
}

/// Decides whether one of the strings of `v` reads exactly as `x`.
pub fn contains_string(v: &Vec<String>, x: &String) -> (r: bool)
    ensures
        r == views_of(v@).contains(x@),
{
    let mut i: usize = 0;
    while i < v.len()
        invariant
            i <= v@.len(),
            forall|j: int| 0 <= j < i ==> views_of(v@)[j] != x@,
        decreases v@.len() - i,
    {
        if v[i] == *x {
            proof {
                assert(views_of(v@)[i as int] == x@);
            }
            return true;
        }
        i = i + 1;
    }
    proof {
        assert forall|j: int| 0 <= j < v@.len() implies views_of(v@)[j] != x@ by {}
    }
    false
}

/// Collects the names of the items that belong to the category named
/// `cat_name`, in dataset order.
fn members_of(items: &Vec<SearchBackendItem>, cat_name: &String) -> (r: Vec<String>)
    ensures
        views_of(r@) == member_names(items@, cat_name@),
{
    let mut r: Vec<String> = Vec::new();
    let mut i: usize = 0;
    while i < items.len()
        invariant
            i <= items@.len(),
            views_of(r@) == member_names(items@.take(i as int), cat_name@),
        decreases items@.len() - i,
    {
        if contains_string(&items[i].categories, cat_name) {
            r.push(items[i].name.clone());
        }
        proof {
            assert(items@.take(i + 1).drop_last() =~= items@.take(i as int));
            assert(items@.take(i + 1).last() == items@[i as int]);
            assert(views_of(r@) =~= member_names(items@.take(i + 1), cat_name@));
        }
        i = i + 1;
    }
    proof {
        assert(items@.take(items@.len() as int) =~= items@);
    }
    r
}

/// Copies a list of strings.
fn clone_strings(v: &Vec<String>) -> (r: Vec<String>)
    ensures
        views_of(r@) == views_of(v@),
{
    let mut r: Vec<String> = Vec::new();
    let mut i: usize = 0;
    while i < v.len()
        invariant
            i <= v@.len(),
            r@.len() == i,
            forall|j: int| 0 <= j < i ==> r@[j]@ == v@[j]@,
        decreases v@.len() - i,
    {
        r.push(v[i].clone());
        i = i + 1;
    }
    proof {
        assert(views_of(r@) =~= views_of(v@));
    }
    r
}

/// Decides whether `a` is ranked at or before `b`: by descending score,
/// then by descending name.
fn category_ranked_le(a: &CategoryResult, b: &CategoryResult) -> (r: bool)
    ensures
        r == result_le(a@.score, a@.name, b@.score, b@.name),
{
    if a.score > b.score {
        true
    } else if a.score == b.score {
        str_le(b.name.as_str(), a.name.as_str())
    } else {
        false
    }
}

/// Decides whether `a` is ranked at or before `b`: by descending score,
/// then by descending name.
fn result_ranked_le(a: &SearchResult, b: &SearchResult) -> (r: bool)
    ensures
        r == result_le(a@.score, a@.name, b@.score, b@.name),
{
    if a.score > b.score {
        true
    } else if a.score == b.score {
        str_le(b.name.as_str(), a.name.as_str())
    } else {
        false
    }
}

/// The ranking order is reflexive.
pub proof fn lemma_result_le_refl(s: u32, n: Seq<char>)
    ensures
        result_le(s, n, s, n),
{
    lemma_lex_le_total(n, n);
}

/// Sorts category results by descending score, breaking ties by
/// descending name.
fn sort_category_results(v: Vec<CategoryResult>) -> (r: Vec<CategoryResult>)
    ensures
        cat_views(r@).to_multiset() == cat_views(v@).to_multiset(),
        cats_sorted(cat_views(r@)),
{
    broadcast use vstd::seq_lib::group_to_multiset_ensures;
    broadcast use vstd::multiset::group_multiset_axioms;
    broadcast use vstd::multiset::lemma_multiset_empty_len;

    let mut rem = v;
    let mut out: Vec<CategoryResult> = Vec::new();
    proof {
        assert(cat_views(out@).len() == 0);
        assert(cat_views(out@).to_multiset().add(cat_views(rem@).to_multiset()) =~= cat_views(
            v@,
        ).to_multiset());
    }
    while rem.len() > 0
        invariant
            cat_views(out@).to_multiset().add(cat_views(rem@).to_multiset()) == cat_views(
                v@,
            ).to_multiset(),
            cats_sorted(cat_views(out@)),
            forall|i: int, j: int|
                0 <= i < out@.len() && 0 <= j < rem@.len() ==> result_le(
                    out@[i]@.score,
                    out@[i]@.name,
                    rem@[j]@.score,
                    rem@[j]@.name,
                ),
        decreases rem@.len(),
    {
        let mut m: usize = 0;
        let mut j: usize = 1;
        proof {
            lemma_result_le_refl(rem@[0]@.score, rem@[0]@.name);
        }
        while j < rem.len()
            invariant
                m < j <= rem@.len(),
                rem@.len() > 0,
                forall|t: int|
                    0 <= t < j ==> result_le(
                        rem@[m as int]@.score,
                        rem@[m as int]@.name,
                        rem@[t]@.score,
                        rem@[t]@.name,
                    ),
            decreases rem@.len() - j,
        {
            if !category_ranked_le(&rem[m], &rem[j]) {
                proof {
                    lemma_result_le_total(
                        rem@[m as int]@.score,
                        rem@[m as int]@.name,
                        rem@[j as int]@.score,
                        rem@[j as int]@.name,
                    );
                    assert forall|t: int| 0 <= t < j implies result_le(
                        rem@[j as int]@.score,
                        rem@[j as int]@.name,
                        rem@[t]@.score,
                        rem@[t]@.name,
                    ) by {
                        lemma_result_le_trans(
                            rem@[j as int]@.score,
                            rem@[j as int]@.name,
                            rem@[m as int]@.score,
                            rem@[m as int]@.name,
                            rem@[t]@.score,
                            rem@[t]@.name,
                        );
                    }
                    lemma_result_le_refl(rem@[j as int]@.score, rem@[j as int]@.name);
                }
                m = j;
            }
            j = j + 1;
        }
        let ghost old_rem = rem@;
        let ghost old_out = out@;
        let x = rem.remove(m);
        out.push(x);
        proof {
            assert(cat_views(old_rem)[m as int] == x@);
            assert(cat_views(old_rem).remove(m as int) =~= cat_views(rem@));
            assert(cat_views(out@) =~= cat_views(old_out).push(x@));
            vstd::seq_lib::to_multiset_remove(cat_views(old_rem), m as int);
            cat_views(old_rem).to_multiset_ensures();
            cat_views(old_out).to_multiset_ensures();
            assert(cat_views(old_rem).contains(x@));
            assert(cat_views(old_rem).to_multiset().count(x@) > 0);
            assert(cat_views(out@).to_multiset().add(cat_views(rem@).to_multiset()) =~= cat_views(
                v@,
            ).to_multiset());
            assert forall|t: int| 0 <= t < rem@.len() implies result_le(
                x@.score,
                x@.name,
                rem@[t]@.score,
                rem@[t]@.name,
            ) by {
                if t < m {
                    assert(rem@[t] == old_rem[t]);
                } else {
                    assert(rem@[t] == old_rem[t + 1]);
                }
            }
            assert forall|i: int, j: int| 0 <= i < j < out@.len() implies result_le(
                cat_views(out@)[i].score,
                cat_views(out@)[i].name,
                cat_views(out@)[j].score,
                cat_views(out@)[j].name,
            ) by {
                assert(cat_views(out@)[i] == out@[i]@);
                assert(cat_views(out@)[j] == out@[j]@);
                if j < old_out.len() {
                    assert(cat_views(old_out)[i] == old_out[i]@);
                    assert(cat_views(old_out)[j] == old_out[j]@);
                }
            }
            assert forall|i: int, j: int|
                0 <= i < out@.len() && 0 <= j < rem@.len() implies result_le(
                out@[i]@.score,
                out@[i]@.name,
                rem@[j]@.score,
                rem@[j]@.name,
            ) by {
                if i < old_out.len() {
                    if j < m {
                        assert(rem@[j] == old_rem[j]);
                    } else {
                        assert(rem@[j] == old_rem[j + 1]);
                    }
                }
            }
        }
    }
    proof {
        assert(cat_views(rem@).len() == 0);
        assert(cat_views(out@).to_multiset() =~= cat_views(v@).to_multiset());
    }
    out
}

/// Sorts item results by descending score, breaking ties by descending
/// name.
fn sort_item_results(v: Vec<SearchResult>) -> (r: Vec<SearchResult>)
    ensures
        res_views(r@).to_multiset() == res_views(v@).to_multiset(),
        results_sorted(res_views(r@)),
{
    broadcast use vstd::seq_lib::group_to_multiset_ensures;
    broadcast use vstd::multiset::group_multiset_axioms;
    broadcast use vstd::multiset::lemma_multiset_empty_len;

    let mut rem = v;
    let mut out: Vec<SearchResult> = Vec::new();
    proof {
        assert(res_views(out@).len() == 0);
        assert(res_views(out@).to_multiset().add(res_views(rem@).to_multiset()) =~= res_views(
            v@,
        ).to_multiset());
    }
    while rem.len() > 0
        invariant
            res_views(out@).to_multiset().add(res_views(rem@).to_multiset()) == res_views(
                v@,
            ).to_multiset(),
            results_sorted(res_views(out@)),
            forall|i: int, j: int|
                0 <= i < out@.len() && 0 <= j < rem@.len() ==> result_le(
                    out@[i]@.score,
                    out@[i]@.name,
                    rem@[j]@.score,
                    rem@[j]@.name,
                ),
        decreases rem@.len(),
    {
        let mut m: usize = 0;
        let mut j: usize = 1;
        proof {
            lemma_result_le_refl(rem@[0]@.score, rem@[0]@.name);
        }
        while j < rem.len()
            invariant
                m < j <= rem@.len(),
                rem@.len() > 0,
                forall|t: int|
                    0 <= t < j ==> result_le(
                        rem@[m as int]@.score,
                        rem@[m as int]@.name,
                        rem@[t]@.score,
                        rem@[t]@.name,
                    ),
            decreases rem@.len() - j,
        {
            if !result_ranked_le(&rem[m], &rem[j]) {
                proof {
                    lemma_result_le_total(
                        rem@[m as int]@.score,
                        rem@[m as int]@.name,
                        rem@[j as int]@.score,
                        rem@[j as int]@.name,
                    );
                    assert forall|t: int| 0 <= t < j implies result_le(
                        rem@[j as int]@.score,
                        rem@[j as int]@.name,
                        rem@[t]@.score,
                        rem@[t]@.name,
                    ) by {
                        lemma_result_le_trans(
                            rem@[j as int]@.score,
                            rem@[j as int]@.name,
                            rem@[m as int]@.score,
                            rem@[m as int]@.name,
                            rem@[t]@.score,
                            rem@[t]@.name,
                        );
                    }
                    lemma_result_le_refl(rem@[j as int]@.score, rem@[j as int]@.name);
                }
                m = j;
            }
            j = j + 1;
        }
        let ghost old_rem = rem@;
        let ghost old_out = out@;
        let x = rem.remove(m);
        out.push(x);
        proof {
            assert(res_views(old_rem)[m as int] == x@);
            assert(res_views(old_rem).remove(m as int) =~= res_views(rem@));
            assert(res_views(out@) =~= res_views(old_out).push(x@));
            vstd::seq_lib::to_multiset_remove(res_views(old_rem), m as int);
            res_views(old_rem).to_multiset_ensures();
            res_views(old_out).to_multiset_ensures();
            assert(res_views(old_rem).contains(x@));
            assert(res_views(old_rem).to_multiset().count(x@) > 0);
            assert(res_views(out@).to_multiset().add(res_views(rem@).to_multiset()) =~= res_views(
                v@,
            ).to_multiset());
            assert forall|t: int| 0 <= t < rem@.len() implies result_le(
                x@.score,
                x@.name,
                rem@[t]@.score,
                rem@[t]@.name,
            ) by {
                if t < m {
                    assert(rem@[t] == old_rem[t]);
                } else {
                    assert(rem@[t] == old_rem[t + 1]);
                }
            }
            assert forall|i: int, j: int| 0 <= i < j < out@.len() implies result_le(
                res_views(out@)[i].score,
                res_views(out@)[i].name,
                res_views(out@)[j].score,
                res_views(out@)[j].name,
            ) by {
                assert(res_views(out@)[i] == out@[i]@);
                assert(res_views(out@)[j] == out@[j]@);
                if j < old_out.len() {
                    assert(res_views(old_out)[i] == old_out[i]@);
                    assert(res_views(old_out)[j] == old_out[j]@);
                }
            }
            assert forall|i: int, j: int|
                0 <= i < out@.len() && 0 <= j < rem@.len() implies result_le(
                out@[i]@.score,
                out@[i]@.name,
                rem@[j]@.score,
                rem@[j]@.name,
            ) by {
                if i < old_out.len() {
                    if j < m {
                        assert(rem@[j] == old_rem[j]);
                    } else {
                        assert(rem@[j] == old_rem[j + 1]);
                    }
                }
            }
        }
    }
    proof {
        assert(res_views(rem@).len() == 0);
        assert(res_views(out@).to_multiset() =~= res_views(v@).to_multiset());
    }
    out
}

/// Performs a search on a given [`SearchBackendData`].
///
/// The caller supplies the similarity scores, in thousandths: one per
/// category name, and for each item one per short name followed by one
/// for the primary name. The response collects every strong match into
/// ranked lists and classifies itself by the best-scoring candidate kind
/// across the whole scan, categories first.
pub fn search(
    query: &str,
    from_data: &SearchBackendData,
    category_scores: &Vec<u32>,
    item_scores: &Vec<Vec<u32>>,
) -> (r: SearchResponse)
    requires
        from_data.categories@.len() + from_data.search_results@.len() <= usize::MAX,
        category_scores@.len() == from_data.categories@.len(),
        item_scores@.len() == from_data.search_results@.len(),
        forall|i: int|
            0 <= i < item_scores@.len() ==> #[trigger] item_scores@[i]@.len()
                == from_data.search_results@[i].shortname@.len() + 1,
    ensures
        r@.query == query@,
        r@.index == 0,
        r@.render_type == scan_all(
            from_data.categories@,
            from_data.search_results@,
            category_scores@,
            score_views(item_scores@),
        ).render,
        r@.category_results.to_multiset() == strong_category_results(
            from_data.categories@,
            from_data.search_results@,
            category_scores@,
            from_data.categories@.len() as int,
        ).to_multiset(),
        r@.results.to_multiset() == strong_item_results(
            from_data.search_results@,
            score_views(item_scores@),
            from_data.search_results@.len() as int,
        ).to_multiset(),
        cats_sorted(r@.category_results),
        results_sorted(r@.results),
        r.category_results@.len() <= from_data.categories@.len(),
        r.results@.len() <= from_data.search_results@.len(),
{
    let ghost cats = from_data.categories@;
    let ghost items = from_data.search_results@;
    let ghost cs = category_scores@;
    let ghost isv = score_views(item_scores@);

    let mut category_results: Vec<CategoryResult> = Vec::new();
    let mut results: Vec<SearchResult> = Vec::new();
    let mut render_type = RenderType::Guess(None);
    let mut best_score: u32 = 0;

    proof {
        assert(cat_views(category_results@) =~= Seq::<CategoryResultView>::empty());
    }
    // Scan categories
    let mut k: usize = 0;
    while k < from_data.categories.len()
        invariant
            k <= cats.len(),
            cats == from_data.categories@,
            items == from_data.search_results@,
            cs == category_scores@,
            cs.len() == cats.len(),
            (ScanState { best: best_score, render: render_type@ }) == scan_categories(
                cats,
                cs,
                k as int,
            ),
            cat_views(category_results@) == strong_category_results(cats, items, cs, k as int),
        decreases cats.len() - k,
    {
        let category_score = category_scores[k];
        let ghost pre = category_results@;
        if category_score > SEARCH_SCORE_THRESHOLD {
            let members = members_of(&from_data.search_results, &from_data.categories[k].name);
            category_results.push(
                CategoryResult {
                    members,
                    name: from_data.categories[k].name.clone(),
                    score: category_score,
                    text: from_data.categories[k].text.clone(),
                },
            );
            proof {
                assert(cat_views(category_results@) =~= cat_views(pre).push(
                    category_result_at(cats, items, cs, k as int),
                ));
            }
            if category_score > best_score {
                render_type = RenderType::Category;
                best_score = category_score;
            }
        } else if category_score > best_score {
            render_type = RenderType::Guess(Some(from_data.categories[k].name.clone()));
            best_score = category_score;
        }
        proof {
            assert(cat_views(category_results@) =~= strong_category_results(
                cats,
                items,
                cs,
                k + 1,
            ));
        }
        k = k + 1;
    }

    let ghost cat_state = scan_categories(cats, cs, cats.len() as int);
    proof {
        assert(res_views(results@) =~= Seq::<SearchResultView>::empty());
    }
    // Scan items
    let mut k: usize = 0;
    while k < from_data.search_results.len()
        invariant
            k <= items.len(),
            cats == from_data.categories@,
            items == from_data.search_results@,
            isv == score_views(item_scores@),
            isv.len() == items.len(),
            item_scores@.len() == items.len(),
            cat_state == scan_categories(cats, cs, cats.len() as int),
            (ScanState { best: best_score, render: render_type@ }) == scan_items(
                items,
                isv,
                k as int,
                cat_state,
            ),
            res_views(results@) == strong_item_results(items, isv, k as int),
        decreases items.len() - k,
    {
        // The item's score is the best over its primary and short names.
        let scores_k = &item_scores[k];
        let mut item_score: u32 = 0;
        let mut j: usize = 0;
        proof {
            assert(scores_k@.take(0) =~= Seq::<u32>::empty());
        }
        while j < scores_k.len()
            invariant
                j <= scores_k@.len(),
                scores_k@ == isv[k as int],
                item_score == max_score(scores_k@.take(j as int)),
            decreases scores_k@.len() - j,
        {
            if scores_k[j] > item_score {
                item_score = scores_k[j];
            }
            proof {
                assert(scores_k@.take(j + 1).drop_last() =~= scores_k@.take(j as int));
                assert(scores_k@.take(j + 1).last() == scores_k@[j as int]);
            }
            j = j + 1;
        }
        proof {
            assert(scores_k@.take(scores_k@.len() as int) =~= scores_k@);
            assert(item_score == max_score(isv[k as int]));
        }
        let ghost pre = results@;
        // Push good results
        if item_score > SEARCH_SCORE_THRESHOLD {
            let item = &from_data.search_results[k];
            results.push(
                SearchResult {
                    categories: clone_strings(&item.categories),
                    ext_links: clone_strings(&item.ext_links),
                    name: item.name.clone(),
                    score: item_score,
                    shortname: clone_strings(&item.shortname),
                    text: item.text.clone(),
                },
            );
            proof {
                assert(res_views(results@) =~= res_views(pre).push(
                    item_result_at(items, isv, k as int),
                ));
            }
            if item_score > best_score {
                render_type = RenderType::Result;
                best_score = item_score;
            }
        } else if item_score > best_score {
            render_type = RenderType::Guess(Some(from_data.search_results[k].name.clone()));
            best_score = item_score;
        }
        proof {
            assert(res_views(results@) =~= strong_item_results(items, isv, k + 1));
        }
        k = k + 1;
    }

    let category_results = sort_category_results(category_results);
    let results = sort_item_results(results);
    proof {
        broadcast use vstd::seq_lib::group_to_multiset_ensures;

        lemma_strong_category_results_len(cats, items, cs, cats.len() as int);
        lemma_strong_item_results_len(items, isv, items.len() as int);
        assert(cat_views(category_results@).len() == category_results@.len());
        assert(res_views(results@).len() == results@.len());
        assert(cat_views(category_results@).to_multiset().len() == cat_views(
            category_results@,
        ).len());
        assert(res_views(results@).to_multiset().len() == res_views(results@).len());
        assert(strong_category_results(cats, items, cs, cats.len() as int).to_multiset().len()
            == strong_category_results(cats, items, cs, cats.len() as int).len());
        assert(strong_item_results(items, isv, items.len() as int).to_multiset().len()
            == strong_item_results(items, isv, items.len() as int).len());
    }
    SearchResponse {
        category_results,
        index: 0,
        query: String::from_str(query),
        render_type,
        results,
    }
}

} // verus!
