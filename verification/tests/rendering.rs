//! Tests of the response builder: page ordering, footers, member lists
//! and guess pages.

use paxbot::search::{
    search, SearchBackendCategory, SearchBackendData, SearchBackendItem,
};

fn s(x: &str) -> String {
    String::from(x)
}

fn strs(xs: &[&str]) -> Vec<String> {
    let mut v = Vec::new();
    for x in xs {
        v.push(String::from(*x));
    }
    v
}

const SHORT_FOOTER: &str =
    "Use \u{2764}\u{FE0F} if paxbot found what you needed or \u{1F4A2} if not.";

fn nav_footer(i: usize, n: usize) -> String {
    format!(
        "Displaying result {} of {}. Use \u{2B05}\u{FE0F} and \u{27A1}\u{FE0F} to navigate.\nUse \u{2764}\u{FE0F} if paxbot found what you needed or \u{1F4A2} if not.",
        i, n
    )
}

fn weapons_data() -> SearchBackendData {
    SearchBackendData {
        categories: vec![SearchBackendCategory { name: s("Weapons"), text: s("Things that hurt.") }],
        search_results: vec![
            SearchBackendItem {
                categories: strs(&["Weapons"]),
                ext_links: strs(&["[wiki](http://example.com/axe)"]),
                name: s("Axe"),
                shortname: strs(&["ax"]),
                text: s("Chops."),
            },
            SearchBackendItem {
                categories: strs(&["Weapons"]),
                ext_links: Vec::new(),
                name: s("Bow"),
                shortname: Vec::new(),
                text: s("Shoots."),
            },
        ],
    }
}

#[test]
fn category_best_renders_categories_first_with_position_footer() {
    let data = weapons_data();
    let cs = vec![950];
    let is = vec![vec![0, 800], vec![700]];
    let resp = search("weapons", &data, &cs, &is);
    let r = resp.get_renderable_response();
    assert_eq!(r.index, 0);
    assert_eq!(r.messages.len(), 3);
    let first = &r.messages[0];
    assert_eq!(first.content, "Results for: `weapons`");
    let embed = first.embed.as_ref().unwrap();
    assert_eq!(embed.title, "Weapons (Category)");
    assert_eq!(embed.description.as_deref(), Some("Things that hurt."));
    assert_eq!(embed.footer.as_deref(), Some(nav_footer(1, 3).as_str()));
    let fields = embed.fields.as_ref().unwrap();
    assert_eq!(fields.len(), 1);
    assert_eq!(fields[0].0, "Category Members");
    assert_eq!(fields[0].1, "Axe\nBow");
    assert!(fields[0].2);
    // item pages follow, ranked by score
    let second = r.messages[1].embed.as_ref().unwrap();
    assert_eq!(second.title, "Axe (ax)");
    assert_eq!(second.footer.as_deref(), Some(nav_footer(2, 3).as_str()));
    let third = r.messages[2].embed.as_ref().unwrap();
    assert_eq!(third.title, "Bow ()");
    assert_eq!(third.footer.as_deref(), Some(nav_footer(3, 3).as_str()));
}

#[test]
fn item_best_renders_items_before_categories() {
    let data = weapons_data();
    let cs = vec![700];
    let is = vec![vec![0, 950], vec![0]];
    let resp = search("axe", &data, &cs, &is);
    let r = resp.get_renderable_response();
    assert_eq!(r.messages.len(), 2);
    let first = r.messages[0].embed.as_ref().unwrap();
    assert_eq!(first.title, "Axe (ax)");
    let fields = first.fields.as_ref().unwrap();
    assert_eq!(fields.len(), 2);
    assert_eq!(fields[0].0, "Information");
    assert_eq!(fields[0].1, "Chops.");
    assert!(!fields[0].2);
    assert_eq!(fields[1].0, "External Links");
    assert_eq!(fields[1].1, "[wiki](http://example.com/axe)");
    assert_eq!(first.description.as_deref(), Some("Weapons"));
    let second = r.messages[1].embed.as_ref().unwrap();
    assert_eq!(second.title, "Weapons (Category)");
}

#[test]
fn only_categories_matched_renders_category_pages_only() {
    let data = weapons_data();
    let cs = vec![900];
    let is = vec![vec![0, 0], vec![0]];
    let resp = search("weapons", &data, &cs, &is);
    let r = resp.get_renderable_response();
    assert_eq!(r.messages.len(), 1);
    let embed = r.messages[0].embed.as_ref().unwrap();
    assert_eq!(embed.title, "Weapons (Category)");
    assert_eq!(embed.footer.as_deref(), Some(SHORT_FOOTER));
}

#[test]
fn single_page_footer_has_no_navigation_hint() {
    let data = SearchBackendData {
        categories: Vec::new(),
        search_results: vec![SearchBackendItem {
            categories: strs(&["Awesome People"]),
            ext_links: Vec::new(),
            name: s("Kali Liada"),
            shortname: strs(&["Kali", "Marz"]),
            text: s("Yep, I'm me."),
        }],
    };
    let cs = Vec::new();
    let is = vec![vec![1000, 400, 500]];
    let resp = search("kali", &data, &cs, &is);
    let r = resp.get_renderable_response();
    assert_eq!(r.messages.len(), 1);
    let embed = r.messages[0].embed.as_ref().unwrap();
    assert_eq!(embed.title, "Kali Liada (Kali, Marz)");
    assert_eq!(embed.footer.as_deref(), Some(SHORT_FOOTER));
}

#[test]
fn guess_with_candidate_reads_did_you_mean() {
    let data = SearchBackendData {
        categories: Vec::new(),
        search_results: vec![SearchBackendItem {
            categories: Vec::new(),
            ext_links: Vec::new(),
            name: s("Kali Liada"),
            shortname: Vec::new(),
            text: s("t"),
        }],
    };
    let cs = Vec::new();
    let is = vec![vec![300]];
    let resp = search("kal", &data, &cs, &is);
    let r = resp.get_renderable_response();
    assert_eq!(r.messages.len(), 1);
    assert_eq!(r.messages[0].content, "No results found. Did you mean `Kali Liada`?");
    assert!(r.messages[0].embed.is_none());
}

#[test]
fn guess_without_candidate_reads_no_results() {
    let data = SearchBackendData { categories: Vec::new(), search_results: Vec::new() };
    let resp = search("nothing", &data, &Vec::new(), &Vec::new());
    let r = resp.get_renderable_response();
    assert_eq!(r.index, 0);
    assert_eq!(r.messages.len(), 1);
    assert_eq!(r.messages[0].content, "No results found.");
    assert!(r.messages[0].embed.is_none());
}

#[test]
fn member_list_truncates_after_ten_names() {
    let mut items = Vec::new();
    let names = [
        "M01", "M02", "M03", "M04", "M05", "M06", "M07", "M08", "M09", "M10", "M11", "M12",
    ];
    for n in &names {
        items.push(SearchBackendItem {
            categories: strs(&["Grp"]),
            ext_links: Vec::new(),
            name: s(n),
            shortname: Vec::new(),
            text: s("t"),
        });
    }
    let data = SearchBackendData {
        categories: vec![SearchBackendCategory { name: s("Grp"), text: s("g") }],
        search_results: items,
    };
    let cs = vec![1000];
    let is = vec![
        vec![0], vec![0], vec![0], vec![0], vec![0], vec![0],
        vec![0], vec![0], vec![0], vec![0], vec![0], vec![0],
    ];
    let resp = search("grp", &data, &cs, &is);
    let r = resp.get_renderable_response();
    let embed = r.messages[0].embed.as_ref().unwrap();
    let fields = embed.fields.as_ref().unwrap();
    assert_eq!(
        fields[0].1,
        "M01\nM02\nM03\nM04\nM05\nM06\nM07\nM08\nM09\nM10\n...and 2 more."
    );
}

#[test]
fn footer_text_counts_from_one() {
    let data = weapons_data();
    let cs = vec![950];
    let is = vec![vec![0, 800], vec![700]];
    let resp = search("weapons", &data, &cs, &is);
    assert_eq!(resp.get_footer_text(0), nav_footer(1, 3));
    assert_eq!(resp.get_footer_text(2), nav_footer(3, 3));
}
