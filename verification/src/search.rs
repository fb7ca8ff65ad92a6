//! The search itself: one pass over the lines of a text, under one of
//! two case policies, and what holds of its result.

use crate::text::{
    is_substring, line_views, lines_hold_no_line_feed, lines_of, lowercase, occurs_at,
    split_lines, str_contains, to_lowercase,
};
use vstd::prelude::*;

verus! {

/// The test that the case-sensitive search puts to a line: `query`
/// occurs in it, character for character.
pub open spec fn holds_exactly(query: Seq<char>) -> spec_fn(Seq<char>) -> bool {
    |line: Seq<char>| is_substring(line, query)
}

/// The test that the case-insensitive search puts to a line: the
/// lowercase form of `query` occurs in the lowercase form of the line.
pub open spec fn holds_folded(query: Seq<char>) -> spec_fn(Seq<char>) -> bool {
    |line: Seq<char>| is_substring(lowercase(line), lowercase(query))
}

/// The lines of `text` that hold `query`, in the order of the text.
pub open spec fn exact_matches(query: Seq<char>, text: Seq<char>) -> Seq<Seq<char>> {
    split_lines(text).filter(holds_exactly(query))
}

/// The lines of `text`, as they stand there, whose lowercase form holds
/// the lowercase form of `query`, in the order of the text.
pub open spec fn folded_matches(query: Seq<char>, text: Seq<char>) -> Seq<Seq<char>> {
    split_lines(text).filter(holds_folded(query))
}

/// Whether `kept` is what stands in `from` at the positions `at`, and
/// these positions ascend: `kept` then holds elements of `from` in the
/// order of `from`, and none of them twice.
pub open spec fn is_selection_at<A>(kept: Seq<A>, from: Seq<A>, at: Seq<int>) -> bool {
    &&& at.len() == kept.len()
    &&& forall|k: int| 0 <= k < at.len() ==> 0 <= #[trigger] at[k] < from.len()
    &&& forall|k: int| 0 <= k < at.len() ==> #[trigger] kept[k] == from[at[k]]
    &&& forall|j: int, k: int| 0 <= j < k < at.len() ==> #[trigger] at[j] < #[trigger] at[k]
}

/// What a search finds under the policy chosen.
pub open spec fn found_lines(query: Seq<char>, text: Seq<char>, case_insensitive: bool) -> Seq<
    Seq<char>,
> {
    if case_insensitive {
        folded_matches(query, text)
    } else {
        exact_matches(query, text)
    }
}

/// Filtering one element more either appends that element or changes
/// nothing.
proof fn filter_take_next<A>(s: Seq<A>, pred: spec_fn(A) -> bool, i: int)
    requires
        0 <= i < s.len(),
    ensures
        s.take(i + 1).filter(pred) == if pred(s[i]) {
            s.take(i).filter(pred).push(s[i])
        } else {
            s.take(i).filter(pred)
        },
{
    reveal(Seq::filter);
    assert(s.take(i + 1).drop_last() =~= s.take(i));
}

/// A filter that every element passes keeps the sequence as it is.
proof fn filter_keeps_all<A>(s: Seq<A>, pred: spec_fn(A) -> bool)
    requires
        forall|i: int| 0 <= i < s.len() ==> pred(#[trigger] s[i]),
    ensures
        s.filter(pred) == s,
    decreases s.len(),
{
    reveal(Seq::filter);
    if s.len() > 0 {
        filter_keeps_all(s.drop_last(), pred);
        assert(s.drop_last().push(s.last()) =~= s);
    }
}

/// What a filter keeps stands in the sequence at ascending positions,
/// and these are all the positions whose element passes.
proof fn filter_positions<A>(s: Seq<A>, pred: spec_fn(A) -> bool) -> (at: Seq<int>)
    ensures
        is_selection_at(s.filter(pred), s, at),
        forall|i: int| 0 <= i < s.len() ==> (at.contains(i) <==> pred(#[trigger] s[i])),
    decreases s.len(),
{
    reveal(Seq::filter);
    if s.len() == 0 {
        Seq::empty()
    } else {
        let front = s.drop_last();
        let at_front = filter_positions(front, pred);
        let last = s.len() - 1;
        let at = if pred(s.last()) {
            at_front.push(last)
        } else {
            at_front
        };
        assert forall|k: int| 0 <= k < at_front.len() implies 0 <= #[trigger] at_front[k] < last
            && front[at_front[k]] == s[at_front[k]] by {}
        assert forall|i: int| 0 <= i < s.len() implies (at.contains(i) <==> pred(
            #[trigger] s[i],
        )) by {
            if i < last {
                assert(front[i] == s[i]);
                if at_front.contains(i) {
                    let k = choose|k: int| 0 <= k < at_front.len() && at_front[k] == i;
                    assert(at[k] == i);
                }
                if at.contains(i) {
                    let k = choose|k: int| 0 <= k < at.len() && at[k] == i;
                    assert(at_front[k] == i);
                }
            } else {
                if pred(s.last()) {
                    assert(at[at.len() - 1] == i);
                } else {
                    if at.contains(i) {
                        let k = choose|k: int| 0 <= k < at.len() && at[k] == i;
                        assert(at_front[k] < last);
                    }
                }
            }
        }
        at
    }
}

/// The empty text occurs in every text.
pub proof fn empty_needle_occurs(hay: Seq<char>, needle: Seq<char>)
    requires
        needle.len() == 0,
    ensures
        is_substring(hay, needle),
{
    assert(hay.subrange(0, 0) =~= needle);
    assert(occurs_at(hay, needle, 0));
}

/// Appends `line` to `results` where `needle` occurs in `key`, and
/// leaves `results` alone where it does not. `key` is what the line is
/// compared by; what is kept is always `line` itself.
pub fn push_if_found<'a>(results: &mut Vec<&'a str>, line: &'a str, key: &str, needle: &str)
    ensures
        final(results)@ == if is_substring(key@, needle@) {
            old(results)@.push(line)
        } else {
            old(results)@
        },
{
    if str_contains(key, needle) {
        results.push(line);
    }
}

/// Every line of `contents` in which `query` occurs, compared exactly,
/// in the order of the text. Each result borrows from `contents`.
pub fn search<'a>(query: &str, contents: &'a str) -> (results: Vec<&'a str>)
    ensures
        line_views(results@) == exact_matches(query@, contents@),
        results@.len() <= split_lines(contents@).len(),
        query@.len() == 0 ==> line_views(results@) == split_lines(contents@),
        contents@.len() == 0 ==> results@.len() == 0,
{
    let lines = lines_of(contents);
    let ghost all = split_lines(contents@);
    let ghost pred = holds_exactly(query@);
    let mut results: Vec<&'a str> = Vec::new();
    let mut i: usize = 0;
    assert(line_views(results@) =~= all.take(0).filter(pred)) by {
        reveal(Seq::filter);
    }
    while i < lines.len()
        invariant
            i <= lines.len(),
            all == split_lines(contents@),
            pred == holds_exactly(query@),
            line_views(lines@) == all,
            line_views(results@) == all.take(i as int).filter(pred),
        decreases lines.len() - i,
    {
        let line = lines[i];
        proof {
            assert(line@ == line_views(lines@)[i as int]);
            filter_take_next(all, pred, i as int);
        }
        let ghost before = results@;
        push_if_found(&mut results, line, line, query);
        assert(line_views(results@) =~= all.take(i + 1).filter(pred)) by {
            if is_substring(line@, query@) {
                assert(line_views(before.push(line)) =~= line_views(before).push(line@));
            }
        }
        i += 1;
    }
    proof {
        assert(all.take(i as int) =~= all);
        all.lemma_filter_len(pred);
        assert(line_views(results@).len() == results@.len());
        if query@.len() == 0 {
            empty_query_matches_every_line(query@, contents@);
        }
    }
    results
}

/// Every line of `contents` whose lowercase form holds the lowercase
/// form of `query`, in the order of the text. The lowercase forms serve
/// the comparison only: each result is the line as it stands in
/// `contents`, and borrows from it.
pub fn search_case_insensitive<'a>(query: &str, contents: &'a str) -> (results: Vec<&'a str>)
    ensures
        line_views(results@) == folded_matches(query@, contents@),
        results@.len() <= split_lines(contents@).len(),
        query@.len() == 0 ==> line_views(results@) == split_lines(contents@),
        contents@.len() == 0 ==> results@.len() == 0,
{
    let needle = to_lowercase(query);
    let lines = lines_of(contents);
    let ghost all = split_lines(contents@);
    let ghost pred = holds_folded(query@);
    let mut results: Vec<&'a str> = Vec::new();
    let mut i: usize = 0;
    assert(line_views(results@) =~= all.take(0).filter(pred)) by {
        reveal(Seq::filter);
    }
    while i < lines.len()
        invariant
            i <= lines.len(),
            all == split_lines(contents@),
            pred == holds_folded(query@),
            needle@ == lowercase(query@),
            line_views(lines@) == all,
            line_views(results@) == all.take(i as int).filter(pred),
        decreases lines.len() - i,
    {
        let line = lines[i];
        let key = to_lowercase(line);
        proof {
            assert(line@ == line_views(lines@)[i as int]);
            filter_take_next(all, pred, i as int);
        }
        let ghost before = results@;
        push_if_found(&mut results, line, key.as_str(), needle.as_str());
        assert(line_views(results@) =~= all.take(i + 1).filter(pred)) by {
            if is_substring(key@, needle@) {
                assert(line_views(before.push(line)) =~= line_views(before).push(line@));
            }
        }
        i += 1;
    }
    proof {
        assert(all.take(i as int) =~= all);
        all.lemma_filter_len(pred);
        assert(line_views(results@).len() == results@.len());
        if query@.len() == 0 {
            query_without_lowercase_matches_every_line(query@, contents@);
        }
    }
    results
}

/// The empty query matches every line: the case-sensitive matches of a
/// query without characters are all the lines of the text.
pub proof fn empty_query_matches_every_line(query: Seq<char>, text: Seq<char>)
    requires
        query.len() == 0,
    ensures
        exact_matches(query, text) == split_lines(text),
{
    let all = split_lines(text);
    assert forall|i: int| 0 <= i < all.len() implies holds_exactly(query)(#[trigger] all[i]) by {
        empty_needle_occurs(all[i], query);
    }
    filter_keeps_all(all, holds_exactly(query));
}

/// A query whose lowercase form has no characters matches every line
/// without regard to case.
pub proof fn query_without_lowercase_matches_every_line(query: Seq<char>, text: Seq<char>)
    requires
        lowercase(query).len() == 0,
    ensures
        folded_matches(query, text) == split_lines(text),
{
    let all = split_lines(text);
    assert forall|i: int| 0 <= i < all.len() implies holds_folded(query)(#[trigger] all[i]) by {
        empty_needle_occurs(lowercase(all[i]), lowercase(query));
    }
    filter_keeps_all(all, holds_folded(query));
}

/// The empty text has no lines, so no query matches anything in it,
/// under either policy.
pub proof fn empty_text_has_no_matches(query: Seq<char>, text: Seq<char>)
    requires
        text.len() == 0,
    ensures
        exact_matches(query, text) == Seq::<Seq<char>>::empty(),
        folded_matches(query, text) == Seq::<Seq<char>>::empty(),
{
    reveal(Seq::filter);
}

/// The case-sensitive matches are exactly the lines that hold the
/// query, each once and in the order of the text: they stand in the
/// text at ascending line positions, and a line position is among these
/// if and only if `query` occurs in the line there.
pub proof fn exact_matches_in_text_order(query: Seq<char>, text: Seq<char>) -> (at: Seq<int>)
    ensures
        is_selection_at(exact_matches(query, text), split_lines(text), at),
        forall|i: int|
            0 <= i < split_lines(text).len() ==> (at.contains(i) <==> is_substring(
                #[trigger] split_lines(text)[i],
                query,
            )),
{
    filter_positions(split_lines(text), holds_exactly(query))
}

/// The case-insensitive matches are exactly the lines whose lowercase
/// form holds the lowercase form of the query, each once and in the
/// order of the text: they stand in the text at ascending line
/// positions, and a line position is among these if and only if the
/// line there passes that test.
pub proof fn folded_matches_in_text_order(query: Seq<char>, text: Seq<char>) -> (at: Seq<int>)
    ensures
        is_selection_at(folded_matches(query, text), split_lines(text), at),
        forall|i: int|
            0 <= i < split_lines(text).len() ==> (at.contains(i) <==> is_substring(
                lowercase(#[trigger] split_lines(text)[i]),
                lowercase(query),
            )),
{
    filter_positions(split_lines(text), holds_folded(query))
}

/// A match of the case-insensitive search is a line of the text as it
/// stands there, in its own letter case: never the lowercase form that
/// it was compared by.
pub proof fn folded_matches_are_lines_of_text(query: Seq<char>, text: Seq<char>, k: int)
    requires
        0 <= k < folded_matches(query, text).len(),
    ensures
        split_lines(text).contains(folded_matches(query, text)[k]),
        is_substring(lowercase(folded_matches(query, text)[k]), lowercase(query)),
{
    let at = folded_matches_in_text_order(query, text);
    assert(folded_matches(query, text)[k] == split_lines(text)[at[k]]);
    assert(at.contains(at[k]));
}

/// Searching again finds the same: two results of one search, under
/// one policy, on one query and one text, hold the same lines in the
/// same order.
pub proof fn repeated_search_agrees(
    first: Seq<&str>,
    second: Seq<&str>,
    query: Seq<char>,
    text: Seq<char>,
    case_insensitive: bool,
)
    requires
        line_views(first) == found_lines(query, text, case_insensitive),
        line_views(second) == found_lines(query, text, case_insensitive),
    ensures
        first.len() == second.len(),
        forall|k: int| 0 <= k < first.len() ==> first[k]@ == second[k]@,
{
    assert(line_views(first).len() == first.len());
    assert(line_views(second).len() == second.len());
    assert forall|k: int| 0 <= k < first.len() implies first[k]@ == second[k]@ by {
        assert(line_views(first)[k] == first[k]@);
        assert(line_views(second)[k] == second[k]@);
    }
}

/// A match never reaches across lines: a query that holds a line feed
/// occurs in no line, so the case-sensitive search finds nothing.
pub proof fn query_with_line_feed_matches_nothing(query: Seq<char>, text: Seq<char>)
    requires
        query.contains('\n'),
    ensures
        exact_matches(query, text).len() == 0,
{
    let all = split_lines(text);
    let at = exact_matches_in_text_order(query, text);
    if at.len() > 0 {
        let line = all[at[0]];
        assert(at.contains(at[0]));
        let from = choose|from: int| occurs_at(line, query, from);
        let j = choose|j: int| 0 <= j < query.len() && query[j] == '\n';
        assert(line.subrange(from, from + query.len())[j] == line[from + j]);
        lines_hold_no_line_feed(text, at[0]);
        assert(line.contains('\n'));
    }
}

} // verus!
