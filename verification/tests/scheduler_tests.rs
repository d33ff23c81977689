use easy_scrape::records::{pages_in_range, FetchError, FetchResult, PageRange};
use easy_scrape::scheduler::aggregate_outcomes;

fn rec(index: usize, title: &str, link: &str) -> (usize, String, String) {
    (index, title.to_string(), link.to_string())
}

#[test]
fn output_keys_are_monotonically_non_decreasing() {
    let outcomes: Vec<FetchResult> = vec![
        Ok(vec![rec(2, "c", "lc")]),
        Ok(vec![rec(0, "a", "la"), rec(0, "a2", "la2")]),
        Ok(vec![rec(1, "b", "lb")]),
    ];
    let result = aggregate_outcomes(outcomes);
    for window in result.windows(2) {
        assert!(window[0].0 <= window[1].0);
    }
    assert_eq!(result.len(), 4);
}

#[test]
fn all_failures_yield_empty_sequence() {
    let outcomes: Vec<FetchResult> = vec![
        Err(FetchError::NetworkError {
            page: 0,
            message: "connection refused".to_string(),
        }),
        Err(FetchError::ParseError {
            page: 1,
            message: "unrecoverable input".to_string(),
        }),
        Err(FetchError::MissingDependency {
            page: 2,
            message: "Parser is required for Douban".to_string(),
        }),
    ];
    let result = aggregate_outcomes(outcomes);
    assert_eq!(result, Vec::new());
}

#[test]
fn later_page_completing_first_still_sorts_after_earlier_page() {
    // page A (index 2) completes before page B (index 1)
    let outcomes: Vec<FetchResult> = vec![
        Ok(vec![rec(2, "a-first", "l1"), rec(2, "a-second", "l2")]),
        Ok(vec![rec(1, "b-first", "l3"), rec(1, "b-second", "l4")]),
    ];
    let result = aggregate_outcomes(outcomes);
    assert_eq!(
        result,
        vec![
            rec(1, "b-first", "l3"),
            rec(1, "b-second", "l4"),
            rec(2, "a-first", "l1"),
            rec(2, "a-second", "l2"),
        ]
    );
}

#[test]
fn deterministic_scenario_is_independent_of_completion_order() {
    // PageRange{start=0,end=3,pageSize=25} with one record per page
    let per_page = |p: usize| rec(p, &format!("title{p}"), &format!("link{p}"));
    let expected = vec![per_page(0), per_page(1), per_page(2)];
    let orders: Vec<Vec<usize>> = vec![
        vec![0, 1, 2],
        vec![2, 1, 0],
        vec![1, 2, 0],
        vec![2, 0, 1],
    ];
    for order in orders {
        let outcomes: Vec<FetchResult> = order.iter().map(|&p| Ok(vec![per_page(p)])).collect();
        assert_eq!(aggregate_outcomes(outcomes), expected);
    }
}

#[test]
fn identical_inputs_give_identical_output_twice() {
    let make_outcomes = || -> Vec<FetchResult> {
        vec![
            Ok(vec![rec(1, "one", "l1")]),
            Err(FetchError::NetworkError {
                page: 0,
                message: "timed out".to_string(),
            }),
            Ok(vec![rec(2, "two", "l2")]),
        ]
    };
    let first = aggregate_outcomes(make_outcomes());
    let second = aggregate_outcomes(make_outcomes());
    assert_eq!(first, second);
    assert_eq!(first, vec![rec(1, "one", "l1"), rec(2, "two", "l2")]);
}

#[test]
fn failed_pages_are_dropped_without_corrupting_others() {
    let outcomes: Vec<FetchResult> = vec![
        Ok(vec![rec(3, "three", "l3")]),
        Err(FetchError::NetworkError {
            page: 1,
            message: "reset".to_string(),
        }),
        Ok(vec![rec(0, "zero", "l0")]),
    ];
    let result = aggregate_outcomes(outcomes);
    assert_eq!(result, vec![rec(0, "zero", "l0"), rec(3, "three", "l3")]);
}

#[test]
fn pages_in_range_lists_each_page_once() {
    let range = PageRange {
        start_page: 3,
        end_page: 7,
        page_size: 25,
    };
    assert_eq!(pages_in_range(&range), vec![3, 4, 5, 6]);
    let empty = PageRange {
        start_page: 5,
        end_page: 5,
        page_size: 25,
    };
    assert_eq!(pages_in_range(&empty), Vec::<usize>::new());
}

#[test]
fn fetch_error_accessors_expose_page_and_message() {
    let network = FetchError::NetworkError {
        page: 4,
        message: "no route".to_string(),
    };
    assert_eq!(network.page(), 4);
    assert_eq!(network.message().as_str(), "no route");
    let parse = FetchError::ParseError {
        page: 5,
        message: "bad input".to_string(),
    };
    assert_eq!(parse.page(), 5);
    assert_eq!(parse.message().as_str(), "bad input");
    let missing = FetchError::MissingDependency {
        page: 6,
        message: "Parser is required for Douban".to_string(),
    };
    assert_eq!(missing.page(), 6);
    assert_eq!(missing.message().as_str(), "Parser is required for Douban");
}
