use easy_scrape::parser::{create_douban_parser, extract_item_records, PageParser};

#[test]
fn item_with_title_and_link_yields_both() {
    let parser = create_douban_parser();
    let html = "<html><body>\
        <div class=\"item\"><div class=\"hd\">\
        <a href=\"/dune\"><span class=\"title\">Dune</span></a>\
        </div></div>\
        </body></html>";
    let records = parser.parse(3, html);
    assert_eq!(records, vec![(3, "Dune".to_string(), "/dune".to_string())]);
}

#[test]
fn item_missing_the_anchor_reference_gets_the_sentinel_link() {
    let parser = create_douban_parser();
    let html = "<html><body>\
        <div class=\"item\"><div class=\"hd\">\
        <a><span class=\"title\">Dune</span></a>\
        </div></div>\
        </body></html>";
    let records = parser.parse(3, html);
    assert_eq!(records, vec![(3, "Dune".to_string(), "N/A".to_string())]);
}

#[test]
fn item_missing_the_title_node_gets_the_empty_title() {
    let parser = create_douban_parser();
    let html = "<html><body>\
        <div class=\"item\"><div class=\"hd\">\
        <a href=\"/bare\"></a>\
        </div></div>\
        </body></html>";
    let records = parser.parse(9, html);
    assert_eq!(records, vec![(9, String::new(), "/bare".to_string())]);
}

#[test]
fn items_come_out_in_document_order_with_the_given_page() {
    let parser = create_douban_parser();
    let html = "<html><body>\
        <div class=\"item\"><div class=\"hd\">\
        <a href=\"/one\"><span class=\"title\">One</span></a>\
        </div></div>\
        <div class=\"item\"><div class=\"hd\">\
        <a href=\"/two\"><span class=\"title\">Two</span></a>\
        </div></div>\
        </body></html>";
    let records = parser.parse(7, html);
    assert_eq!(
        records,
        vec![
            (7, "One".to_string(), "/one".to_string()),
            (7, "Two".to_string(), "/two".to_string()),
        ]
    );
}

#[test]
fn document_without_items_yields_nothing() {
    let parser = create_douban_parser();
    let records = parser.parse(0, "<html><body><p>nothing here</p></body></html>");
    assert_eq!(records, Vec::new());
}

#[test]
fn extract_item_records_applies_the_defaults() {
    let items = vec![
        (Some("T".to_string()), Some("/t".to_string())),
        (None, Some("/only-link".to_string())),
        (Some("only-title".to_string()), None),
        (None, None),
    ];
    let records = extract_item_records(5, items);
    assert_eq!(
        records,
        vec![
            (5, "T".to_string(), "/t".to_string()),
            (5, String::new(), "/only-link".to_string()),
            (5, "only-title".to_string(), "N/A".to_string()),
            (5, String::new(), "N/A".to_string()),
        ]
    );
}
