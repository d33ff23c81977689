use vstd::prelude::*;

verus! {

// ---------------------------------------------------------------------------
// Embedded-data scan: a linear forward scan over the raw text of a page for
// repeated list-item markers, extracting a `url` and a following `name`
// field per occurrence. The scan is purely textual — not a general parser —
// and advances its cursor by a fixed stride of 50 positions past each
// marker, so it terminates even on malformed input. Positions are counted
// in characters. An occurrence with a missing field is skipped without
// advancing the rank counter.
// ---------------------------------------------------------------------------

/// The list-item marker the scan looks for.
pub open spec fn marker_seq() -> Seq<char> {
    "@type\":\"ListItem\",\"item\":{\"@type\":\""@
}

/// The key that introduces an occurrence's url field.
pub open spec fn url_key_seq() -> Seq<char> {
    "url\":\""@
}

/// The key that introduces an occurrence's name field.
pub open spec fn name_key_seq() -> Seq<char> {
    "\"name\":\""@
}

/// The quote that delimits a field value.
pub open spec fn quote_seq() -> Seq<char> {
    "\""@
}

/// Where `pat` first occurs in `text` at or after position `from`:
/// `Some(m)` for the smallest such match position `m`, `None` if there is
/// no occurrence.
pub open spec fn find_from_spec(text: Seq<char>, pat: Seq<char>, from: int) -> Option<int>
    decreases text.len() + 1 - from,
{
    if from < 0 || from + pat.len() > text.len() {
        None
    } else if text.subrange(from, from + pat.len()) == pat {
        Some(from)
    } else {
        find_from_spec(text, pat, from + 1)
    }
}

/// What `find_from_spec` promises: a found position matches, is at or after
/// `from`, and nothing before it matches; `None` means nothing matches.
pub proof fn lemma_find_from_spec(text: Seq<char>, pat: Seq<char>, from: int)
    requires
        from >= 0,
    ensures
        match find_from_spec(text, pat, from) {
            Some(m) => from <= m && m + pat.len() <= text.len() && text.subrange(
                m,
                m + pat.len(),
            ) == pat && forall|j: int|
                from <= j < m ==> #[trigger] text.subrange(j, j + pat.len()) != pat,
            None => forall|j: int|
                from <= j && j + pat.len() <= text.len() ==> #[trigger] text.subrange(
                    j,
                    j + pat.len(),
                ) != pat,
        },
    decreases text.len() + 1 - from,
{
    if from + pat.len() > text.len() {
    } else if text.subrange(from, from + pat.len()) == pat {
    } else {
        lemma_find_from_spec(text, pat, from + 1);
    }
}

/// First occurrence search, verified against `find_from_spec`.
fn find_from(text: &str, pat: &str, from: usize) -> (r: Option<usize>)
    ensures
        match r {
            Some(m) => find_from_spec(text@, pat@, from as int) == Some(m as int),
            None => find_from_spec(text@, pat@, from as int) is None,
        },
{
    let n = text.unicode_len();
    let m = pat.unicode_len();
    if m > n || from > n - m {
        return None;
    }
    let mut i = from;
    while i <= n - m
        invariant
            from <= i,
            m <= n,
            i + m <= n + 1,
            n == text@.len(),
            m == pat@.len(),
            find_from_spec(text@, pat@, from as int) == find_from_spec(text@, pat@, i as int),
        decreases n - i,
    {
        let mut j: usize = 0;
        while j < m && text.get_char(i + j) == pat.get_char(j)
            invariant
                j <= m,
                i + m <= n,
                n == text@.len(),
                m == pat@.len(),
                forall|k: int| 0 <= k < j ==> text@[i + k] == pat@[k],
            decreases m - j,
        {
            j = j + 1;
        }
        if j == m {
            proof {
                assert(text@.subrange(i as int, i + m) =~= pat@);
            }
            return Some(i);
        }
        proof {
            assert(text@.subrange(i as int, i + m)[j as int] == text@[i + j]);
            assert(text@.subrange(i as int, i + m) != pat@);
        }
        i = i + 1;
    }
    None
}

/// The two field values attached to a marker occurrence whose matched region
/// starts at `base`: the url introduced by the url key, then the next name
/// after the url's closing quote, each delimited by the following quote.
/// `None` if any of the four landmarks is missing.
pub open spec fn fields_at(text: Seq<char>, base: int) -> Option<(Seq<char>, Seq<char>)> {
    match find_from_spec(text, url_key_seq(), base) {
        None => None,
        Some(u) => {
            let url_start = u + url_key_seq().len();
            match find_from_spec(text, quote_seq(), url_start) {
                None => None,
                Some(ue) => match find_from_spec(text, name_key_seq(), ue) {
                    None => None,
                    Some(nk) => {
                        let title_start = nk + name_key_seq().len();
                        match find_from_spec(text, quote_seq(), title_start) {
                            None => None,
                            Some(te) => Some(
                                (text.subrange(title_start, te), text.subrange(url_start, ue)),
                            ),
                        }
                    },
                },
            }
        },
    }
}

/// The records the scan emits from `text` starting at cursor `pos`, the
/// next emitted record carrying rank `next_rank`: one `(rank, name, url)`
/// per marker occurrence with both fields, in encounter order; a marker
/// with a missing field is skipped and does not advance the rank. After
/// each marker the cursor moves a fixed 50 positions past the marker's
/// start, whatever was consumed.
pub open spec fn scan_records(text: Seq<char>, pos: int, next_rank: int) -> Seq<
    (int, Seq<char>, Seq<char>),
>
    decreases text.len() + 50 - pos,
    via scan_records_decreases
{
    match find_from_spec(text, marker_seq(), pos) {
        None => Seq::empty(),
        Some(m) => match fields_at(text, m + marker_seq().len()) {
            Some(f) => seq![(next_rank, f.0, f.1)] + scan_records(text, m + 50, next_rank + 1),
            None => scan_records(text, m + 50, next_rank),
        },
    }
}

#[via_fn]
proof fn scan_records_decreases(text: Seq<char>, pos: int, next_rank: int) {
    match find_from_spec(text, marker_seq(), pos) {
        None => {},
        Some(m) => {
            if pos >= 0 {
                lemma_find_from_spec(text, marker_seq(), pos);
            }
        },
    }
}

/// A marker occurrence with a missing field is skipped without advancing
/// the rank counter: the scan emits nothing for it and carries the same
/// next rank past the marker, still moving the cursor forward.
pub proof fn lemma_malformed_occurrence_skipped(text: Seq<char>, pos: int, m: int, next_rank: int)
    requires
        find_from_spec(text, marker_seq(), pos) == Some(m),
        fields_at(text, m + marker_seq().len()) is None,
    ensures
        scan_records(text, pos, next_rank) == scan_records(text, m + 50, next_rank),
{
}

/// How a vector of extracted records realises the scan's mathematical
/// outcome: same length, and entry by entry the same rank and the same
/// name and url text.
pub open spec fn titles_match(
    rs: Seq<(usize, String, String)>,
    model: Seq<(int, Seq<char>, Seq<char>)>,
) -> bool {
    &&& rs.len() == model.len()
    &&& forall|i: int|
        0 <= i < model.len() ==> {
            &&& (#[trigger] rs[i]).0 == model[i].0
            &&& rs[i].1@ == model[i].1
            &&& rs[i].2@ == model[i].2
        }
}

/// Scan raw page text for embedded list-item records. Returns one
/// `(rank, name, url)` triple per well-formed marker occurrence, in
/// encounter order; ranks start at `start_index + 1` and advance only for
/// emitted records.
pub fn parse_titles_from_next_data(start_index: usize, json_str: &str) -> (res: Vec<
    (usize, String, String),
>)
    requires
        start_index + json_str@.len() <= usize::MAX,
    ensures
        titles_match(res@, scan_records(json_str@, 0, start_index + 1)),
{
    let ghost text = json_str@;
    let ghost total = scan_records(text, 0, start_index + 1);
    let n = json_str.unicode_len();
    let mut res: Vec<(usize, String, String)> = Vec::new();
    let ghost mut model: Seq<(int, Seq<char>, Seq<char>)> = Seq::empty();
    let mut pos: usize = 0;
    let mut index: usize = 1;
    let mut done: bool = false;
    proof {
        assert(total =~= model + scan_records(text, 0, start_index + 1));
    }
    while !done
        invariant
            n == text.len(),
            text == json_str@,
            start_index + n <= usize::MAX,
            1 <= index,
            pos <= n,
            !done ==> index - 1 <= pos,
            titles_match(res@, model),
            !done ==> total == model + scan_records(text, pos as int, start_index + index),
            done ==> total == model,
        decreases (if done { 0int } else { 1int }), n - pos,
    {
        let ghost rank: int = start_index + index;
        match find_from(json_str, "@type\":\"ListItem\",\"item\":{\"@type\":\"", pos) {
            None => {
                proof {
                    assert(scan_records(text, pos as int, rank) =~= Seq::empty());
                    assert(total =~= model);
                }
                done = true;
            },
            Some(m) => {
                proof {
                    reveal_strlit("@type\":\"ListItem\",\"item\":{\"@type\":\"");
                    lemma_find_from_spec(text, marker_seq(), pos as int);
                    assert(marker_seq().len() == 35);
                }
                let base = m + 35;
                let ghost stepped = scan_records(text, m + 50, start_index + index);
                if let Some(u) = find_from(json_str, "url\":\"", base) {
                    proof {
                        reveal_strlit("url\":\"");
                        reveal_strlit("\"");
                        lemma_find_from_spec(text, url_key_seq(), base as int);
                        assert(url_key_seq().len() == 6);
                    }
                    let url_start = u + 6;
                    if let Some(ue) = find_from(json_str, "\"", url_start) {
                        proof {
                            lemma_find_from_spec(text, quote_seq(), url_start as int);
                        }
                        if let Some(nk) = find_from(json_str, "\"name\":\"", ue) {
                            proof {
                                reveal_strlit("\"name\":\"");
                                lemma_find_from_spec(text, name_key_seq(), ue as int);
                                assert(name_key_seq().len() == 8);
                            }
                            let title_start = nk + 8;
                            if let Some(te) = find_from(json_str, "\"", title_start) {
                                proof {
                                    lemma_find_from_spec(text, quote_seq(), title_start as int);
                                }
                                let title = json_str.substring_char(title_start, te).to_owned();
                                let url = json_str.substring_char(url_start, ue).to_owned();
                                proof {
                                    assert(fields_at(text, base as int) == Some(
                                        (
                                            text.subrange(title_start as int, te as int),
                                            text.subrange(url_start as int, ue as int),
                                        ),
                                    ));
                                }
                                res.push((start_index + index, title, url));
                                proof {
                                    let entry = (rank, title@, url@);
                                    assert(scan_records(text, pos as int, rank) == seq![entry]
                                        + scan_records(text, m + 50, rank + 1));
                                    assert(total =~= (model + seq![entry]) + scan_records(
                                        text,
                                        m + 50,
                                        rank + 1,
                                    ));
                                    model = model + seq![entry];
                                }
                                index = index + 1;
                            } else {
                                proof {
                                    lemma_find_from_spec(text, quote_seq(), title_start as int);
                                    assert(fields_at(text, base as int) is None);
                                    assert(scan_records(text, pos as int, rank) == stepped);
                                }
                            }
                        } else {
                            proof {
                                lemma_find_from_spec(text, name_key_seq(), ue as int);
                                assert(fields_at(text, base as int) is None);
                                assert(scan_records(text, pos as int, rank) == stepped);
                            }
                        }
                    } else {
                        proof {
                            lemma_find_from_spec(text, quote_seq(), url_start as int);
                            assert(fields_at(text, base as int) is None);
                            assert(scan_records(text, pos as int, rank) == stepped);
                        }
                    }
                } else {
                    proof {
                        reveal_strlit("url\":\"");
                        lemma_find_from_spec(text, url_key_seq(), base as int);
                        assert(fields_at(text, base as int) is None);
                        assert(scan_records(text, pos as int, rank) == stepped);
                    }
                }
                if n >= 50 && m <= n - 50 {
                    pos = m + 50;
                } else {
                    proof {
                        assert(m + 50 > n);
                        assert(find_from_spec(text, marker_seq(), m + 50) is None);
                        assert(scan_records(text, m + 50, start_index + index) =~= Seq::empty());
                        assert(total =~= model);
                    }
                    done = true;
                }
            },
        }
    }
    res
}

} // verus!
