//! The response builder: turns a search response into an ordered list of
//! renderable pages. Category pages come first when the classification is
//! category-led, item pages come first when it is item-led, and a guess
//! yields a single synthetic page. Every page of a ranked response gets a
//! footer naming its position and the navigation symbols.

use vstd::prelude::*;

use crate::search::{
    CategoryResult, CategoryResultView, RenderType, RenderTypeView, SearchResponse,
    SearchResponseView, SearchResult, SearchResultView,
};
use crate::text::{dec_str, join_views, push_dec, join_strings, views_of};

verus! {

/// Defines data that can be rendered to an embed message.
#[derive(Clone, Debug, Eq, PartialEq)]
pub struct RenderableEmbed {
    /// Embed description
    pub description: Option<String>,
    /// Fields as (title, content, inline) tuples
    pub fields: Option<Vec<(String, String, bool)>>,
    /// Embed footer
    pub footer: Option<String>,
    /// Embed title
    pub title: String,
}

/// Mathematical counterpart of [`RenderableEmbed`].
pub struct RenderableEmbedView {
    /// Embed description
    pub description: Option<Seq<char>>,
    /// Fields as (title, content, inline) tuples
    pub fields: Option<Seq<(Seq<char>, Seq<char>, bool)>>,
    /// Embed footer
    pub footer: Option<Seq<char>>,
    /// Embed title
    pub title: Seq<char>,
}

/// The views of a list of embed fields.
pub open spec fn field_views(s: Seq<(String, String, bool)>) -> Seq<(Seq<char>, Seq<char>, bool)> {
    s.map_values(|t: (String, String, bool)| (t.0@, t.1@, t.2))
}

impl View for RenderableEmbed {
    type V = RenderableEmbedView;

    open spec fn view(&self) -> RenderableEmbedView {
        RenderableEmbedView {
            description: match self.description {
                Some(d) => Some(d@),
                None => None,
            },
            fields: match self.fields {
                Some(f) => Some(field_views(f@)),
                None => None,
            },
            footer: match self.footer {
                Some(f) => Some(f@),
                None => None,
            },
            title: self.title@,
        }
    }
}

/// Defines data that can be rendered to a message.
#[derive(Clone, Debug, Eq, PartialEq)]
pub struct RenderableMessage {
    /// Message content.
    pub content: String,
    /// Embed content.
    pub embed: Option<RenderableEmbed>,
}

/// Mathematical counterpart of [`RenderableMessage`].
pub struct RenderableMessageView {
    /// Message content.
    pub content: Seq<char>,
    /// Embed content.
    pub embed: Option<RenderableEmbedView>,
}

impl View for RenderableMessage {
    type V = RenderableMessageView;

    open spec fn view(&self) -> RenderableMessageView {
        RenderableMessageView {
            content: self.content@,
            embed: match self.embed {
                Some(e) => Some(e@),
                None => None,
            },
        }
    }
}

/// The views of a list of renderable messages.
pub open spec fn msg_views(s: Seq<RenderableMessage>) -> Seq<RenderableMessageView> {
    s.map_values(|m: RenderableMessage| m@)
}

/// Contains an entire renderable response that can be navigated through.
#[derive(Clone, Debug, Eq, PartialEq)]
pub struct RenderableResponse {
    /// Currently rendered index.
    pub index: usize,
    /// The renderable messages, one per page.
    pub messages: Vec<RenderableMessage>,
}

/// Mathematical counterpart of [`RenderableResponse`].
pub struct RenderableResponseView {
    /// Currently rendered index.
    pub index: int,
    /// The renderable messages, one per page.
    pub messages: Seq<RenderableMessageView>,
}

impl View for RenderableResponse {
    type V = RenderableResponseView;

    open spec fn view(&self) -> RenderableResponseView {
        RenderableResponseView { index: self.index as int, messages: msg_views(self.messages@) }
    }
}

/// The footer attached to the page at position `i` of a response of
/// `total` pages: position and navigation hints when there are several
/// pages, the feedback hint alone when there is one.
pub open spec fn footer_text_view(total: int, i: int) -> Seq<char> {
    if total > 1 {
        "Displaying result "@ + dec_str(i + 1) + " of "@ + dec_str(total)
            + ". Use \u{2B05}\u{FE0F} and \u{27A1}\u{FE0F} to navigate.\nUse \u{2764}\u{FE0F} if paxbot found what you needed or \u{1F4A2} if not."@
    } else {
        "Use \u{2764}\u{FE0F} if paxbot found what you needed or \u{1F4A2} if not."@
    }
}

/// The member list shown on a category page: at most ten member names,
/// followed by a note counting the rest when there are more.
pub open spec fn member_list_view(ms: Seq<Seq<char>>) -> Seq<char> {
    if ms.len() > 10 {
        join_views(ms.take(10), "\n"@) + "\n...and "@ + dec_str(ms.len() - 10) + " more."@
    } else {
        join_views(ms, "\n"@)
    }
}

/// The page built for one category result.
pub open spec fn cat_page_view(
    query: Seq<char>,
    c: CategoryResultView,
    footer: Option<Seq<char>>,
) -> RenderableMessageView {
    RenderableMessageView {
        content: "Results for: `"@ + query + "`"@,
        embed: Some(
            RenderableEmbedView {
                description: Some(c.text),
                fields: Some(seq![("Category Members"@, member_list_view(c.members), true)]),
                footer,
                title: c.name + " (Category)"@,
            },
        ),
    }
}

/// The page built for one item result.
pub open spec fn item_page_view(
    query: Seq<char>,
    it: SearchResultView,
    footer: Option<Seq<char>>,
) -> RenderableMessageView {
    RenderableMessageView {
        content: "Results for: `"@ + query + "`"@,
        embed: Some(
            RenderableEmbedView {
                description: Some(join_views(it.categories, ", "@)),
                fields: Some(
                    seq![
                        ("Information"@, it.text, false),
                        ("External Links"@, join_views(it.ext_links, "\n"@), false),
                    ],
                ),
                footer,
                title: it.name + " ("@ + join_views(it.shortname, ", "@) + ")"@,
            },
        ),
    }
}

/// The single synthetic page built when the response is a guess.
pub open spec fn guess_page_view(g: Option<Seq<char>>) -> RenderableMessageView {
    match g {
        Some(s) => RenderableMessageView {
            content: "No results found. Did you mean `"@ + s + "`?"@,
            embed: None,
        },
        None => RenderableMessageView { content: "No results found."@, embed: None },
    }
}

/// The number of pages a ranked response renders to.
pub open spec fn total_pages(r: SearchResponseView) -> int {
    r.category_results.len() + r.results.len() as int
}

/// The category pages of a response, footered as positions `off` and up.
pub open spec fn cat_pages(r: SearchResponseView, off: int) -> Seq<RenderableMessageView> {
    Seq::new(
        r.category_results.len(),
        |j: int|
            cat_page_view(
                r.query,
                r.category_results[j],
                Some(footer_text_view(total_pages(r), off + j)),
            ),
    )
}

/// The item pages of a response, footered as positions `off` and up.
pub open spec fn item_pages(r: SearchResponseView, off: int) -> Seq<RenderableMessageView> {
    Seq::new(
        r.results.len(),
        |j: int|
            item_page_view(r.query, r.results[j], Some(footer_text_view(total_pages(r), off + j))),
    )
}

/// All pages of a response in rendering order: categories first when the
/// classification is category-led, items first when it is item-led, and
/// a single synthetic page for a guess.
pub open spec fn pages_of(r: SearchResponseView) -> Seq<RenderableMessageView> {
    match r.render_type {
        RenderTypeView::Category => cat_pages(r, 0) + item_pages(r, r.category_results.len() as int),
        RenderTypeView::Result => item_pages(r, 0) + cat_pages(r, r.results.len() as int),
        RenderTypeView::Guess(g) => seq![guess_page_view(g)],
    }
}

/// A response whose scan found at least one strong-match category and no
/// strong-match item is classified category-led, and its pages open with
/// its category pages, one per ranked category result, in order.
pub proof fn lemma_category_led_pages(
    cats: Seq<crate::search::SearchBackendCategory>,
    items: Seq<crate::search::SearchBackendItem>,
    cs: Seq<u32>,
    isv: Seq<Seq<u32>>,
    r: SearchResponseView,
)
    requires
        r.render_type == crate::search::scan_all(cats, items, cs, isv).render,
        r.category_results.to_multiset() == crate::search::strong_category_results(
            cats,
            items,
            cs,
            cats.len() as int,
        ).to_multiset(),
        crate::search::strong_category_results(cats, items, cs, cats.len() as int).len() >= 1,
        crate::search::strong_item_results(items, isv, items.len() as int).len() == 0,
    ensures
        r.render_type == RenderTypeView::Category,
        r.category_results.len() >= 1,
        forall|j: int|
            0 <= j < r.category_results.len() ==> pages_of(r)[j] == cat_page_view(
                r.query,
                r.category_results[j],
                Some(footer_text_view(total_pages(r), j)),
            ),
{
    broadcast use vstd::seq_lib::group_to_multiset_ensures;

    crate::search::lemma_category_best(cats, items, cs, isv);
    assert(r.category_results.to_multiset().len() >= 1);
    assert(r.category_results.len() >= 1);
    assert forall|j: int| 0 <= j < r.category_results.len() implies pages_of(r)[j]
        == cat_page_view(
        r.query,
        r.category_results[j],
        Some(footer_text_view(total_pages(r), j)),
    ) by {
        assert(pages_of(r)[j] == cat_pages(r, 0)[j]);
    }
}

/// Builds the member list shown on a category page.
fn member_list_text(members: &Vec<String>) -> (r: String)
    ensures
        r@ == member_list_view(views_of(members@)),
{
    let ghost ms = views_of(members@);
    let mut first: Vec<String> = Vec::new();
    let mut i: usize = 0;
    while i < members.len() && i < 10
        invariant
            i <= members@.len(),
            i <= 10,
            views_of(first@) == ms.take(i as int),
            ms == views_of(members@),
        decreases members@.len() - i,
    {
        let ghost prev = first@;
        first.push(members[i].clone());
        proof {
            assert(views_of(prev).len() == prev.len());
            assert(views_of(first@).len() == first@.len());
            assert forall|j: int| 0 <= j < i + 1 implies views_of(first@)[j] == ms.take(i + 1)[j] by {
                if j < i {
                    assert(first@[j] == prev[j]);
                    assert(views_of(prev)[j] == prev[j]@);
                } else {
                    assert(first@[j]@ == members@[j]@);
                }
            }
            assert(views_of(first@) =~= ms.take(i + 1));
        }
        i = i + 1;
    }
    proof {
        assert(i == 10 || i == members@.len());
    }
    let mut r = join_strings(&first, "\n");
    if members.len() > 10 {
        r.append("\n...and ");
        push_dec(&mut r, members.len() - 10);
        r.append(" more.");
        proof {
            assert(r@ =~= member_list_view(ms));
        }
    } else {
        proof {
            assert(ms.take(i as int) =~= ms);
            assert(r@ =~= member_list_view(ms));
        }
    }
    r
}

impl SearchResponse {
    /// Returns formatted footer text for the page at a given position.
    pub fn get_footer_text(&self, for_index: usize) -> (r: String)
        requires
            self.category_results@.len() + self.results@.len() <= usize::MAX,
            for_index < self.category_results@.len() + self.results@.len(),
        ensures
            r@ == footer_text_view(total_pages(self@), for_index as int),
    {
        let total_len = self.category_results.len() + self.results.len();
        if total_len > 1 {
            let mut r = String::from_str("Displaying result ");
            push_dec(&mut r, for_index + 1);
            r.append(" of ");
            push_dec(&mut r, total_len);
            r.append(
                ". Use \u{2B05}\u{FE0F} and \u{27A1}\u{FE0F} to navigate.\nUse \u{2764}\u{FE0F} if paxbot found what you needed or \u{1F4A2} if not.",
            );
            proof {
                assert(r@ =~= footer_text_view(total_pages(self@), for_index as int));
            }
            r
        } else {
            String::from_str(
                "Use \u{2764}\u{FE0F} if paxbot found what you needed or \u{1F4A2} if not.",
            )
        }
    }

    /// Builds the page for one category result, footered as position
    /// `at_index` of this response.
    fn category_message(&self, k: usize, at_index: usize) -> (m: RenderableMessage)
        requires
            self.category_results@.len() + self.results@.len() <= usize::MAX,
            k < self.category_results@.len(),
            at_index < self.category_results@.len() + self.results@.len(),
        ensures
            m@ == cat_page_view(
                self.query@,
                self.category_results@[k as int]@,
                Some(footer_text_view(total_pages(self@), at_index as int)),
            ),
    {
        let result = &self.category_results[k];
        let item_list = member_list_text(&result.members);
        let mut content = String::from_str("Results for: `");
        content.append(self.query.as_str());
        content.append("`");
        let mut title = result.name.clone();
        title.append(" (Category)");
        let fields: Vec<(String, String, bool)> = vec![
            (String::from_str("Category Members"), item_list, true),
        ];
        let m = RenderableMessage {
            content,
            embed: Some(
                RenderableEmbed {
                    description: Some(result.text.clone()),
                    fields: Some(fields),
                    footer: Some(self.get_footer_text(at_index)),
                    title,
                },
            ),
        };
        proof {
            assert(field_views(m.embed->Some_0.fields->Some_0@) =~= seq![
                ("Category Members"@, member_list_view(self.category_results@[k as int]@.members), true),
            ]);
            assert(m@.content =~= "Results for: `"@ + self.query@ + "`"@);
            assert(m@.embed->Some_0.title =~= self.category_results@[k as int]@.name
                + " (Category)"@);
        }
        m
    }

    /// Builds the page for one item result, footered as position
    /// `at_index` of this response.
    fn item_message(&self, k: usize, at_index: usize) -> (m: RenderableMessage)
        requires
            self.category_results@.len() + self.results@.len() <= usize::MAX,
            k < self.results@.len(),
            at_index < self.category_results@.len() + self.results@.len(),
        ensures
            m@ == item_page_view(
                self.query@,
                self.results@[k as int]@,
                Some(footer_text_view(total_pages(self@), at_index as int)),
            ),
    {
        let result = &self.results[k];
        let mut content = String::from_str("Results for: `");
        content.append(self.query.as_str());
        content.append("`");
        let mut title = result.name.clone();
        title.append(" (");
        let short_list = join_strings(&result.shortname, ", ");
        title.append(short_list.as_str());
        title.append(")");
        let fields: Vec<(String, String, bool)> = vec![
            (String::from_str("Information"), result.text.clone(), false),
            (String::from_str("External Links"), join_strings(&result.ext_links, "\n"), false),
        ];
        let m = RenderableMessage {
            content,
            embed: Some(
                RenderableEmbed {
                    description: Some(join_strings(&result.categories, ", ")),
                    fields: Some(fields),
                    footer: Some(self.get_footer_text(at_index)),
                    title,
                },
            ),
        };
        proof {
            assert(field_views(m.embed->Some_0.fields->Some_0@) =~= seq![
                ("Information"@, self.results@[k as int]@.text, false),
                ("External Links"@, join_views(self.results@[k as int]@.ext_links, "\n"@), false),
            ]);
            assert(m@.content =~= "Results for: `"@ + self.query@ + "`"@);
            assert(m@.embed->Some_0.title =~= self.results@[k as int]@.name + " ("@ + join_views(
                self.results@[k as int]@.shortname,
                ", "@,
            ) + ")"@);
        }
        m
    }

    /// Gets all renderable pages in rendering order, including the
    /// appropriate navigation footers, with the current index reset to
    /// the first page.
    pub fn get_renderable_response(&self) -> (r: RenderableResponse)
        requires
            self.category_results@.len() + self.results@.len() <= usize::MAX,
        ensures
            r@.index == 0,
            r@.messages == pages_of(self@),
    {
        let mut messages: Vec<RenderableMessage> = Vec::new();
        match &self.render_type {
            RenderType::Category => {
                // Categories first
                let nc = self.category_results.len();
                let mut k: usize = 0;
                while k < nc
                    invariant
                        nc == self.category_results@.len(),
                        self.category_results@.len() + self.results@.len() <= usize::MAX,
                        k <= nc,
                        msg_views(messages@) == cat_pages(self@, 0).take(k as int),
                    decreases nc - k,
                {
                    let ghost prev = messages@;
                    messages.push(self.category_message(k, k));
                    proof {
                        assert(msg_views(prev).len() == prev.len());
                        assert(msg_views(messages@).len() == messages@.len());
                        assert(messages@[k as int]@ == cat_pages(self@, 0)[k as int]);
                        assert forall|j: int| 0 <= j < k + 1 implies msg_views(messages@)[j]
                            == cat_pages(self@, 0).take(k + 1)[j] by {
                            if j < k {
                                assert(messages@[j] == prev[j]);
                                assert(msg_views(prev)[j] == prev[j]@);
                            }
                        }
                        assert(msg_views(messages@) =~= cat_pages(self@, 0).take(k + 1));
                    }
                    k = k + 1;
                }
                // Items after
                let nr = self.results.len();
                let mut k: usize = 0;
                while k < nr
                    invariant
                        nc == self.category_results@.len(),
                        nr == self.results@.len(),
                        self.category_results@.len() + self.results@.len() <= usize::MAX,
                        k <= nr,
                        msg_views(messages@) == cat_pages(self@, 0) + item_pages(
                            self@,
                            nc as int,
                        ).take(k as int),
                    decreases nr - k,
                {
                    let ghost prev = messages@;
                    messages.push(self.item_message(k, nc + k));
                    proof {
                        assert(msg_views(prev).len() == prev.len());
                        assert(msg_views(messages@).len() == messages@.len());
                        assert(messages@[(nc + k) as int]@ == item_pages(self@, nc as int)[
                            k as int]);
                        assert forall|j: int| 0 <= j < nc + k + 1 implies msg_views(messages@)[j]
                            == (cat_pages(self@, 0) + item_pages(self@, nc as int).take(k + 1))[j]
                            by {
                            if j < nc + k {
                                assert(messages@[j] == prev[j]);
                                assert(msg_views(prev)[j] == prev[j]@);
                            }
                        }
                        assert(msg_views(messages@) =~= cat_pages(self@, 0) + item_pages(
                            self@,
                            nc as int,
                        ).take(k + 1));
                    }
                    k = k + 1;
                }
                proof {
                    assert(cat_pages(self@, 0).take(nc as int) =~= cat_pages(self@, 0));
                    assert(item_pages(self@, nc as int).take(self.results@.len() as int)
                        =~= item_pages(self@, nc as int));
                    assert(msg_views(messages@) =~= pages_of(self@));
                }
            }
            RenderType::Result => {
                // Results first
                let nr = self.results.len();
                let mut k: usize = 0;
                while k < nr
                    invariant
                        nr == self.results@.len(),
                        self.category_results@.len() + self.results@.len() <= usize::MAX,
                        k <= nr,
                        msg_views(messages@) == item_pages(self@, 0).take(k as int),
                    decreases nr - k,
                {
                    let ghost prev = messages@;
                    messages.push(self.item_message(k, k));
                    proof {
                        assert(msg_views(prev).len() == prev.len());
                        assert(msg_views(messages@).len() == messages@.len());
                        assert(messages@[k as int]@ == item_pages(self@, 0)[k as int]);
                        assert forall|j: int| 0 <= j < k + 1 implies msg_views(messages@)[j]
                            == item_pages(self@, 0).take(k + 1)[j] by {
                            if j < k {
                                assert(messages@[j] == prev[j]);
                                assert(msg_views(prev)[j] == prev[j]@);
                            }
                        }
                        assert(msg_views(messages@) =~= item_pages(self@, 0).take(k + 1));
                    }
                    k = k + 1;
                }
                // Categories after
                let nc = self.category_results.len();
                let mut k: usize = 0;
                while k < nc
                    invariant
                        nc == self.category_results@.len(),
                        nr == self.results@.len(),
                        self.category_results@.len() + self.results@.len() <= usize::MAX,
                        k <= nc,
                        msg_views(messages@) == item_pages(self@, 0) + cat_pages(
                            self@,
                            nr as int,
                        ).take(k as int),
                    decreases nc - k,
                {
                    let ghost prev = messages@;
                    messages.push(self.category_message(k, nr + k));
                    proof {
                        assert(msg_views(prev).len() == prev.len());
                        assert(msg_views(messages@).len() == messages@.len());
                        assert(messages@[(nr + k) as int]@ == cat_pages(self@, nr as int)[
                            k as int]);
                        assert forall|j: int| 0 <= j < nr + k + 1 implies msg_views(messages@)[j]
                            == (item_pages(self@, 0) + cat_pages(self@, nr as int).take(k + 1))[j]
                            by {
                            if j < nr + k {
                                assert(messages@[j] == prev[j]);
                                assert(msg_views(prev)[j] == prev[j]@);
                            }
                        }
                        assert(msg_views(messages@) =~= item_pages(self@, 0) + cat_pages(
                            self@,
                            nr as int,
                        ).take(k + 1));
                    }
                    k = k + 1;
                }
                proof {
                    assert(item_pages(self@, 0).take(nr as int) =~= item_pages(self@, 0));
                    assert(cat_pages(self@, nr as int).take(self.category_results@.len() as int)
                        =~= cat_pages(self@, nr as int));
                    assert(msg_views(messages@) =~= pages_of(self@));
                }
            }
            RenderType::Guess(guess_str) => {
                match guess_str {
                    Some(best_guess) => {
                        let mut content = String::from_str("No results found. Did you mean `");
                        content.append(best_guess.as_str());
                        content.append("`?");
                        messages.push(RenderableMessage { content, embed: None });
                    }
                    None => {
                        messages.push(
                            RenderableMessage {
                                content: String::from_str("No results found."),
                                embed: None,
                            },
                        );
                    }
                }
                proof {
                    assert(msg_views(messages@) =~= pages_of(self@));
                }
            }
        }
        RenderableResponse { index: 0, messages }
    }
}

} // verus!
