use easy_scrape::parser::{create_douban_parser, DoubanParser};
use easy_scrape::records::FetchError;
use easy_scrape::strategy::{jitter_bounds, usize_to_decimal, DefaultFetchStrategy, ImdbFetchStrategy};

#[test]
fn decimal_rendering_is_exact() {
    assert_eq!(usize_to_decimal(0), "0");
    assert_eq!(usize_to_decimal(7), "7");
    assert_eq!(usize_to_decimal(10), "10");
    assert_eq!(usize_to_decimal(250), "250");
    assert_eq!(usize_to_decimal(1234567890), "1234567890");
}

#[test]
fn douban_url_embeds_the_absolute_offset() {
    let strategy = DefaultFetchStrategy;
    assert_eq!(
        strategy.request_url(0, 25),
        "https://movie.douban.com/top250?start=0"
    );
    assert_eq!(
        strategy.request_url(2, 25),
        "https://movie.douban.com/top250?start=50"
    );
}

#[test]
fn imdb_url_embeds_the_one_based_page_number() {
    let strategy = ImdbFetchStrategy;
    assert_eq!(
        strategy.request_url(0),
        "https://www.imdb.com/list/ls048276758/?view=compact&page=1"
    );
    assert_eq!(
        strategy.request_url(3),
        "https://www.imdb.com/list/ls048276758/?view=compact&page=4"
    );
}

#[test]
fn jitter_bounds_are_two_to_four_seconds() {
    assert_eq!(jitter_bounds(), (2, 4));
}

#[test]
fn default_strategy_without_parser_reports_missing_dependency() {
    let strategy = DefaultFetchStrategy;
    let outcome = strategy.fetch_outcome(4, "<html></html>", None);
    match outcome {
        Err(FetchError::MissingDependency { page, message }) => {
            assert_eq!(page, 4);
            assert_eq!(message, "Parser is required for Douban");
        }
        other => panic!("expected a missing dependency error, got {other:?}"),
    }
}

#[test]
fn default_strategy_with_parser_extracts_the_page() {
    let strategy = DefaultFetchStrategy;
    let parser = create_douban_parser();
    let html = "<div class=\"item\"><div class=\"hd\">\
        <a href=\"/dune\"><span class=\"title\">Dune</span></a>\
        </div></div>";
    let outcome = strategy.fetch_outcome(2, html, Some(parser.as_ref()));
    assert_eq!(
        outcome.unwrap(),
        vec![(2, "Dune".to_string(), "/dune".to_string())]
    );
}

#[test]
fn default_strategy_empty_page_is_success_with_no_records() {
    let strategy = DefaultFetchStrategy;
    let parser: DoubanParser = DoubanParser {};
    let outcome = strategy.fetch_outcome(0, "<html></html>", Some(&parser));
    assert_eq!(outcome.unwrap(), Vec::new());
}

#[test]
fn imdb_strategy_offsets_ranks_by_page_times_page_size() {
    let strategy = ImdbFetchStrategy;
    let text = "@type\":\"ListItem\",\"item\":{\"@type\":\"Movie\",\"url\":\"/m1\",\"name\":\"First\"}";
    let outcome = strategy.fetch_outcome(1, 250, text);
    assert_eq!(
        outcome.unwrap(),
        vec![(251, "First".to_string(), "/m1".to_string())]
    );
}

#[test]
fn strategy_outcomes_flow_through_the_scheduler_in_key_order() {
    let strategy = ImdbFetchStrategy;
    let text = |url: &str, name: &str| {
        format!("@type\":\"ListItem\",\"item\":{{\"@type\":\"Movie\",\"url\":\"{url}\",\"name\":\"{name}\"}}")
    };
    let page0 = strategy.fetch_outcome(0, 25, &text("/a", "Alpha"));
    let page1 = strategy.fetch_outcome(1, 25, &text("/b", "Beta"));
    // page 1 completes before page 0
    let result = easy_scrape::scheduler::aggregate_outcomes(vec![page1, page0]);
    assert_eq!(
        result,
        vec![
            (1, "Alpha".to_string(), "/a".to_string()),
            (26, "Beta".to_string(), "/b".to_string()),
        ]
    );
}

#[test]
fn imdb_strategy_never_fails_on_markerless_text() {
    let strategy = ImdbFetchStrategy;
    let outcome = strategy.fetch_outcome(0, 250, "no structured data here");
    assert_eq!(outcome.unwrap(), Vec::new());
}
