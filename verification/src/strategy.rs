use vstd::prelude::*;
use crate::parser::{records_match, DoubanParser, PageParser};
use crate::records::{FetchError, FetchResult};
use crate::scan::{parse_titles_from_next_data, scan_records, titles_match};

verus! {

// ---------------------------------------------------------------------------
// Site-specific fetch behaviour. Each strategy decides, from plain values,
// what to request and what a fetched body yields; issuing the request, the
// randomized pre-request delay and the diagnostic timing lines are the
// caller's unverified edge, driven by the values computed here.
// ---------------------------------------------------------------------------

/// The decimal digit `d` as a character.
pub open spec fn digit_char(d: int) -> char {
    if d == 0 {
        '0'
    } else if d == 1 {
        '1'
    } else if d == 2 {
        '2'
    } else if d == 3 {
        '3'
    } else if d == 4 {
        '4'
    } else if d == 5 {
        '5'
    } else if d == 6 {
        '6'
    } else if d == 7 {
        '7'
    } else if d == 8 {
        '8'
    } else {
        '9'
    }
}

/// The usual decimal rendering of a non-negative integer: most significant
/// digit first, no leading zeroes (a single zero for zero itself).
pub open spec fn decimal_seq(n: int) -> Seq<char>
    recommends
        n >= 0,
    decreases n,
{
    if n < 10 {
        seq![digit_char(n)]
    } else {
        decimal_seq(n / 10).push(digit_char(n % 10))
    }
}

/// One decimal digit as text.
fn digit_str(d: usize) -> (s: &'static str)
    requires
        d < 10,
    ensures
        s@ == seq![digit_char(d as int)],
{
    match d {
        0 => {
            proof {
                reveal_strlit("0");
                assert("0"@ =~= seq![digit_char(0)]);
            }
            "0"
        },
        1 => {
            proof {
                reveal_strlit("1");
                assert("1"@ =~= seq![digit_char(1)]);
            }
            "1"
        },
        2 => {
            proof {
                reveal_strlit("2");
                assert("2"@ =~= seq![digit_char(2)]);
            }
            "2"
        },
        3 => {
            proof {
                reveal_strlit("3");
                assert("3"@ =~= seq![digit_char(3)]);
            }
            "3"
        },
        4 => {
            proof {
                reveal_strlit("4");
                assert("4"@ =~= seq![digit_char(4)]);
            }
            "4"
        },
        5 => {
            proof {
                reveal_strlit("5");
                assert("5"@ =~= seq![digit_char(5)]);
            }
            "5"
        },
        6 => {
            proof {
                reveal_strlit("6");
                assert("6"@ =~= seq![digit_char(6)]);
            }
            "6"
        },
        7 => {
            proof {
                reveal_strlit("7");
                assert("7"@ =~= seq![digit_char(7)]);
            }
            "7"
        },
        8 => {
            proof {
                reveal_strlit("8");
                assert("8"@ =~= seq![digit_char(8)]);
            }
            "8"
        },
        _ => {
            proof {
                reveal_strlit("9");
                assert("9"@ =~= seq![digit_char(9)]);
            }
            "9"
        },
    }
}

/// Render a number in decimal.
pub fn usize_to_decimal(n: usize) -> (s: String)
    ensures
        s@ == decimal_seq(n as int),
    decreases n,
{
    if n < 10 {
        let s = digit_str(n).to_owned();
        proof {
            assert(s@ =~= decimal_seq(n as int));
        }
        s
    } else {
        let mut s = usize_to_decimal(n / 10);
        s.append(digit_str(n % 10));
        proof {
            assert(s@ =~= decimal_seq(n as int));
        }
        s
    }
}

/// The delay policy both fetch strategies share: before issuing a request,
/// a strategy pauses for a whole number of seconds drawn uniformly at
/// random from this closed interval — crude anti-detection jitter, not a
/// rate limiter.
pub fn jitter_bounds() -> (bounds: (u64, u64))
    ensures
        bounds.0 == 2,
        bounds.1 == 4,
{
    (2, 4)
}

/// The request URL for a structured listing page holding the given
/// absolute item offset.
pub open spec fn douban_url_spec(offset: int) -> Seq<char> {
    "https://movie.douban.com/top250?start="@ + decimal_seq(offset)
}

/// The request URL for an embedded-data listing page holding the given
/// one-based page number.
pub open spec fn imdb_url_spec(page_number: int) -> Seq<char> {
    "https://www.imdb.com/list/ls048276758/?view=compact&page="@ + decimal_seq(page_number)
}

/// Fetch behaviour for the structured listing site: pages are addressed by
/// an absolute item offset, and a fetched body is handed to the supplied
/// structured parser.
pub struct DefaultFetchStrategy;

impl DefaultFetchStrategy {
    /// The URL to request for `page`: the page's absolute item offset is
    /// `page * page_size`.
    pub fn request_url(&self, page: usize, page_size: usize) -> (url: String)
        requires
            page * page_size <= usize::MAX,
        ensures
            url@ == douban_url_spec(page * page_size),
    {
        let offset = page * page_size;
        let url = "https://movie.douban.com/top250?start=".to_owned().concat(
            usize_to_decimal(offset).as_str(),
        );
        url
    }

    /// What a successfully fetched body yields for `page`: the supplied
    /// parser's records — or, when no parser was supplied, the missing
    /// dependency error for this page. Never fails for any body when a
    /// parser is present.
    pub fn fetch_outcome(&self, page: usize, document: &str, parser: Option<&DoubanParser>) -> (result:
        FetchResult)
        ensures
            (match parser {
                Some(p) => result matches Ok(records) && records_match(
                    records@,
                    p.parse_spec(page, document@),
                ),
                None => result matches Err(e) && e matches FetchError::MissingDependency {
                    page: error_page,
                    message,
                } && error_page == page && message@ == "Parser is required for Douban"@,
            }),
    {
        match parser {
            Some(p) => Ok(p.parse(page, document)),
            None => Err(
                FetchError::MissingDependency {
                    page,
                    message: "Parser is required for Douban".to_owned(),
                },
            ),
        }
    }
}

/// Fetch behaviour for the embedded-data listing site: pages are addressed
/// by a one-based page number, and a fetched body is scanned for embedded
/// records with ranks offset by `page * page_size`.
pub struct ImdbFetchStrategy;

impl ImdbFetchStrategy {
    /// The URL to request for `page`, addressed one-based.
    pub fn request_url(&self, page: usize) -> (url: String)
        requires
            page < usize::MAX,
        ensures
            url@ == imdb_url_spec(page + 1),
    {
        let url = "https://www.imdb.com/list/ls048276758/?view=compact&page=".to_owned().concat(
            usize_to_decimal(page + 1).as_str(),
        );
        url
    }

    /// What a successfully fetched body yields for `page`: the embedded
    /// records scanned out of it, ranked from `page * page_size + 1`
    /// upward so ranks are globally unique across pages. Never fails; a
    /// body without well-formed occurrences yields an empty record list.
    pub fn fetch_outcome(&self, page: usize, page_size: usize, document: &str) -> (result:
        FetchResult)
        requires
            page * page_size + document@.len() <= usize::MAX,
        ensures
            result matches Ok(records) && titles_match(
                records@,
                scan_records(document@, 0, page * page_size + 1),
            ),
    {
        let start_index = page * page_size;
        Ok(parse_titles_from_next_data(start_index, document))
    }
}

} // verus!
