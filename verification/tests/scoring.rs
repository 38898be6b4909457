//! Tests of the scoring engine: ranking, tie-breaks, classification.

use paxbot::search::{
    search, RenderType, SearchBackendCategory, SearchBackendData, SearchBackendItem,
};
use rust_fuzzy_search::fuzzy_compare;

fn s(x: &str) -> String {
    String::from(x)
}

fn strs(xs: &[&str]) -> Vec<String> {
    let mut v = Vec::new();
    for x in xs {
        v.push(String::from(*x));
    }
    v
}

fn scale(x: f32) -> u32 {
    (x * 1000.0).round() as u32
}

fn category_scores_for(query: &str, data: &SearchBackendData) -> Vec<u32> {
    let mut v = Vec::new();
    for c in &data.categories {
        v.push(scale(fuzzy_compare(&c.name.to_lowercase(), &query.to_lowercase())));
    }
    v
}

fn item_scores_for(query: &str, data: &SearchBackendData) -> Vec<Vec<u32>> {
    let mut v = Vec::new();
    for it in &data.search_results {
        let mut per_name = Vec::new();
        for n in &it.shortname {
            per_name.push(scale(fuzzy_compare(&n.to_lowercase(), &query.to_lowercase())));
        }
        per_name.push(scale(fuzzy_compare(&it.name.to_lowercase(), &query.to_lowercase())));
        v.push(per_name);
    }
    v
}

fn kali_item() -> SearchBackendItem {
    SearchBackendItem {
        categories: strs(&["Awesome People"]),
        ext_links: strs(&["[A website!](http://example.com)"]),
        name: s("Kali Liada"),
        shortname: strs(&["Kali", "Marz"]),
        text: s("Yep, I'm me."),
    }
}

#[test]
fn kali_query_is_strong_item_match() {
    let data = SearchBackendData { categories: Vec::new(), search_results: vec![kali_item()] };
    let cs = category_scores_for("kali", &data);
    let is = item_scores_for("kali", &data);
    let resp = search("kali", &data, &cs, &is);
    assert!(matches!(resp.render_type, RenderType::Result));
    assert_eq!(resp.results.len(), 1);
    assert_eq!(resp.results[0].name, "Kali Liada");
    assert_eq!(resp.results[0].score, 1000);
    assert_eq!(resp.category_results.len(), 0);
    assert_eq!(resp.index, 0);
    assert_eq!(resp.query, "kali");
}

#[test]
fn empty_dataset_yields_plain_guess() {
    let data = SearchBackendData { categories: Vec::new(), search_results: Vec::new() };
    let cs = Vec::new();
    let is = Vec::new();
    let resp = search("anything", &data, &cs, &is);
    assert!(matches!(resp.render_type, RenderType::Guess(None)));
    assert_eq!(resp.results.len(), 0);
    assert_eq!(resp.category_results.len(), 0);
}

#[test]
fn all_zero_scores_yield_plain_guess() {
    let data = SearchBackendData { categories: Vec::new(), search_results: vec![kali_item()] };
    let cs = category_scores_for("", &data);
    let is = item_scores_for("", &data);
    let resp = search("", &data, &cs, &is);
    assert!(matches!(resp.render_type, RenderType::Guess(None)));
    assert_eq!(resp.results.len(), 0);
}

#[test]
fn weak_best_becomes_guess_candidate() {
    let data = SearchBackendData { categories: Vec::new(), search_results: vec![kali_item()] };
    let cs = Vec::new();
    let is = vec![vec![150, 300, 250]];
    let resp = search("kal", &data, &cs, &is);
    match resp.render_type {
        RenderType::Guess(Some(name)) => assert_eq!(name, "Kali Liada"),
        _ => panic!("expected a named guess"),
    }
    assert_eq!(resp.results.len(), 0);
}

fn plain_item(name: &str) -> SearchBackendItem {
    SearchBackendItem {
        categories: Vec::new(),
        ext_links: Vec::new(),
        name: s(name),
        shortname: Vec::new(),
        text: s("text"),
    }
}

#[test]
fn items_sorted_by_descending_score_then_descending_name() {
    let data = SearchBackendData {
        categories: Vec::new(),
        search_results: vec![plain_item("Alpha"), plain_item("Beta"), plain_item("Gamma")],
    };
    let cs = Vec::new();
    let is = vec![vec![700], vec![700], vec![900]];
    let resp = search("q", &data, &cs, &is);
    assert_eq!(resp.results.len(), 3);
    assert_eq!(resp.results[0].name, "Gamma");
    assert_eq!(resp.results[0].score, 900);
    assert_eq!(resp.results[1].name, "Beta");
    assert_eq!(resp.results[2].name, "Alpha");
    assert!(matches!(resp.render_type, RenderType::Result));
}

#[test]
fn categories_sorted_by_descending_score_then_descending_name() {
    let data = SearchBackendData {
        categories: vec![
            SearchBackendCategory { name: s("Armor"), text: s("a") },
            SearchBackendCategory { name: s("Blades"), text: s("b") },
            SearchBackendCategory { name: s("Charms"), text: s("c") },
        ],
        search_results: Vec::new(),
    };
    let cs = vec![800, 950, 800];
    let is = Vec::new();
    let resp = search("q", &data, &cs, &is);
    assert_eq!(resp.category_results.len(), 3);
    assert_eq!(resp.category_results[0].name, "Blades");
    assert_eq!(resp.category_results[1].name, "Charms");
    assert_eq!(resp.category_results[2].name, "Armor");
    assert!(matches!(resp.render_type, RenderType::Category));
}

#[test]
fn item_score_is_best_over_all_names() {
    let data = SearchBackendData {
        categories: Vec::new(),
        search_results: vec![SearchBackendItem {
            categories: Vec::new(),
            ext_links: Vec::new(),
            name: s("Longname"),
            shortname: strs(&["aa", "bb"]),
            text: s("t"),
        }],
    };
    let cs = Vec::new();
    let is = vec![vec![650, 950, 700]];
    let resp = search("q", &data, &cs, &is);
    assert_eq!(resp.results.len(), 1);
    assert_eq!(resp.results[0].score, 950);
}

#[test]
fn category_members_are_collected_in_dataset_order() {
    let data = SearchBackendData {
        categories: vec![SearchBackendCategory { name: s("Grp"), text: s("the group") }],
        search_results: vec![
            SearchBackendItem {
                categories: strs(&["Grp"]),
                ext_links: Vec::new(),
                name: s("First"),
                shortname: Vec::new(),
                text: s("t"),
            },
            SearchBackendItem {
                categories: strs(&["Other"]),
                ext_links: Vec::new(),
                name: s("Skipped"),
                shortname: Vec::new(),
                text: s("t"),
            },
            SearchBackendItem {
                categories: strs(&["Grp"]),
                ext_links: Vec::new(),
                name: s("Second"),
                shortname: Vec::new(),
                text: s("t"),
            },
        ],
    };
    let cs = vec![1000];
    let is = vec![vec![0], vec![0], vec![0]];
    let resp = search("grp", &data, &cs, &is);
    assert_eq!(resp.category_results.len(), 1);
    assert_eq!(resp.category_results[0].members, strs(&["First", "Second"]));
    assert_eq!(resp.category_results[0].text, "the group");
}

#[test]
fn later_strong_item_takes_classification_from_category() {
    let data = SearchBackendData {
        categories: vec![SearchBackendCategory { name: s("Cat"), text: s("c") }],
        search_results: vec![plain_item("Item")],
    };
    let cs = vec![700];
    let is = vec![vec![900]];
    let resp = search("q", &data, &cs, &is);
    assert!(matches!(resp.render_type, RenderType::Result));
    assert_eq!(resp.category_results.len(), 1);
    assert_eq!(resp.results.len(), 1);
}

#[test]
fn tie_between_category_and_item_keeps_category() {
    let data = SearchBackendData {
        categories: vec![SearchBackendCategory { name: s("Cat"), text: s("c") }],
        search_results: vec![plain_item("Item")],
    };
    let cs = vec![800];
    let is = vec![vec![800]];
    let resp = search("q", &data, &cs, &is);
    assert!(matches!(resp.render_type, RenderType::Category));
}
