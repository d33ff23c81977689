use vstd::prelude::*;
use std::sync::Arc;
use crate::records::PageRecord;

verus! {

// ---------------------------------------------------------------------------
// Structured-selection extraction: a parsed page holds item nodes; each item
// yields a title (the nested title node's inner content, empty if absent)
// and a link (the nested anchor's reference attribute, "N/A" if absent),
// all carrying the page's index, in document order. Locating the item nodes
// inside the raw document is delegated to the scraper crate behind a
// trusted wrapper; everything after that point is verified.
// ---------------------------------------------------------------------------

/// What the fixed structural selectors find in a raw document: one entry
/// per item node, in document order, holding the title node's inner content
/// (if present) and the anchor's reference attribute (if present). A pure
/// function of the document text.
pub uninterp spec fn selected_items_of(body: Seq<char>) -> Seq<
    (Option<Seq<char>>, Option<Seq<char>>),
>;

/// Relies on scraper's `Html::parse_document` and `Selector` matching with
/// the fixed selectors `div.item`, `div.hd > a > span.title` and
/// `div.hd > a`: one entry per matched item node, in document order, with
/// that item's first title node's `inner_html` and its first anchor's
/// `href` attribute. The result depends on the document text alone.
#[verifier::external_body]
fn select_listing_items(document: &str) -> (items: Vec<(Option<String>, Option<String>)>)
    ensures
        items@.len() == selected_items_of(document@).len(),
        forall|i: int|
            0 <= i < items@.len() ==> (#[trigger] items@[i]).deep_view() == selected_items_of(
                document@,
            )[i],
{
    let item_selector = scraper::Selector::parse("div.item").unwrap();
    let title_selector = scraper::Selector::parse("div.hd > a > span.title").unwrap();
    let link_selector = scraper::Selector::parse("div.hd > a").unwrap();
    let document = scraper::Html::parse_document(document);
    document
        .select(&item_selector)
        .map(|item| {
            let title = item.select(&title_selector).next().map(|e| e.inner_html());
            let anchor = item.select(&link_selector).next();
            (title, anchor.and_then(|e| e.value().attr("href")).map(String::from))
        })
        .collect()
}

/// The record one selected item turns into: the given page index, the title
/// (empty if the item had no title node) and the link (the sentinel `N/A`
/// if the item had no anchor).
pub open spec fn record_of_item(page: usize, item: (Option<Seq<char>>, Option<Seq<char>>)) -> (
    usize,
    Seq<char>,
    Seq<char>,
) {
    (
        page,
        match item.0 {
            Some(title) => title,
            None => Seq::empty(),
        },
        match item.1 {
            Some(link) => link,
            None => "N/A"@,
        },
    )
}

/// All records a page's selected items turn into, in document order.
pub open spec fn extracted_records(
    page: usize,
    items: Seq<(Option<Seq<char>>, Option<Seq<char>>)>,
) -> Seq<(usize, Seq<char>, Seq<char>)> {
    items.map_values(|item: (Option<Seq<char>>, Option<Seq<char>>)| record_of_item(page, item))
}

/// How a vector of records realises its mathematical model: same length,
/// and entry by entry the same index, title text and link text.
pub open spec fn records_match(
    rs: Seq<PageRecord>,
    model: Seq<(usize, Seq<char>, Seq<char>)>,
) -> bool {
    &&& rs.len() == model.len()
    &&& forall|i: int|
        0 <= i < model.len() ==> {
            &&& (#[trigger] rs[i]).0 == model[i].0
            &&& rs[i].1@ == model[i].1
            &&& rs[i].2@ == model[i].2
        }
}

/// Turn selected items into records for `page`: one record per item, in
/// item order, with the defaults for missing fields.
pub fn extract_item_records(page: usize, items: Vec<(Option<String>, Option<String>)>) -> (records:
    Vec<PageRecord>)
    ensures
        records@.len() == items@.len(),
        forall|i: int|
            0 <= i < items@.len() ==> {
                &&& (#[trigger] records@[i]).0 == page
                &&& records@[i].1@ == record_of_item(page, items@[i].deep_view()).1
                &&& records@[i].2@ == record_of_item(page, items@[i].deep_view()).2
            },
{
    let ghost all = items@;
    let mut items = items;
    let mut records: Vec<PageRecord> = Vec::new();
    while items.len() > 0
        invariant
            items@ =~= all.skip(records@.len() as int),
            records@.len() <= all.len(),
            forall|i: int|
                0 <= i < records@.len() ==> {
                    &&& (#[trigger] records@[i]).0 == page
                    &&& records@[i].1@ == record_of_item(page, all[i].deep_view()).1
                    &&& records@[i].2@ == record_of_item(page, all[i].deep_view()).2
                },
        decreases items@.len(),
    {
        let ghost before = items@;
        let item = items.remove(0);
        proof {
            assert(items@ =~= before.drop_first());
            assert(item == all[records@.len() as int]);
        }
        let title = match item.0 {
            Some(title) => title,
            None => String::new(),
        };
        let link = match item.1 {
            Some(link) => link,
            None => "N/A".to_owned(),
        };
        records.push((page, title, link));
    }
    records
}

/// A page-structure-specific extraction behaviour: from the raw text of a
/// fetched document to the page's records.
pub trait PageParser: Sized {
    /// The records this parser extracts, as the contracts speak of them.
    spec fn parse_spec(&self, page: usize, body: Seq<char>) -> Seq<(usize, Seq<char>, Seq<char>)>;

    /// Extract the records of page `page` from a fetched document's raw
    /// text, in document order.
    fn parse(&self, page: usize, document: &str) -> (records: Vec<PageRecord>)
        ensures
            records_match(records@, self.parse_spec(page, document@)),
    ;
}

/// The parser for structured listing pages: selects item nodes with the
/// fixed selectors and applies the title and link defaults.
pub struct DoubanParser {}

impl PageParser for DoubanParser {
    open spec fn parse_spec(&self, page: usize, body: Seq<char>) -> Seq<
        (usize, Seq<char>, Seq<char>),
    > {
        extracted_records(page, selected_items_of(body))
    }

    fn parse(&self, page: usize, document: &str) -> (records: Vec<PageRecord>) {
        let items = select_listing_items(document);
        let records = extract_item_records(page, items);
        proof {
            let model = extracted_records(page, selected_items_of(document@));
            assert forall|i: int| 0 <= i < model.len() implies {
                &&& (#[trigger] records@[i]).0 == model[i].0
                &&& records@[i].1@ == model[i].1
                &&& records@[i].2@ == model[i].2
            } by {
                assert(items@[i].deep_view() == selected_items_of(document@)[i]);
            }
        }
        records
    }
}

/// A shared handle to the structured-page parser.
pub fn create_douban_parser() -> (parser: Arc<DoubanParser>)
{
    Arc::new(DoubanParser {})
}

} // verus!
