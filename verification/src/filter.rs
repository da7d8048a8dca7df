use vstd::prelude::*;
use vstd::string::*;
use vstd::utf8::*;

verus! {

/// Number of positions of `subject` that hold the character `c`.
pub open spec fn occurrences(subject: Seq<char>, c: char) -> nat
    decreases subject.len(),
{
    if subject.len() == 0 {
        0
    } else {
        occurrences(subject.drop_last(), c) + if subject.last() == c {
            1nat
        } else {
            0nat
        }
    }
}

/// The match score of `subject` for `query`: every character of the query,
/// repeated ones included, adds the number of times it occurs in the subject.
pub open spec fn score(query: Seq<char>, subject: Seq<char>) -> nat
    decreases query.len(),
{
    if query.len() == 0 {
        0
    } else {
        score(query.drop_last(), subject) + occurrences(subject, query.last())
    }
}

/// A character occurs in a text at most once per position.
pub proof fn lemma_occurrences_bound(subject: Seq<char>, c: char)
    ensures
        occurrences(subject, c) <= subject.len(),
    decreases subject.len(),
{
    if subject.len() > 0 {
        lemma_occurrences_bound(subject.drop_last(), c);
    }
}

/// A score never exceeds the product of the two lengths.
pub proof fn lemma_score_bound(query: Seq<char>, subject: Seq<char>)
    ensures
        score(query, subject) <= query.len() * subject.len(),
    decreases query.len(),
{
    if query.len() > 0 {
        lemma_score_bound(query.drop_last(), subject);
        lemma_occurrences_bound(subject, query.last());
        assert((query.len() - 1) * subject.len() + subject.len() == query.len() * subject.len())
            by (nonlinear_arith);
    } else {
        assert(0 * subject.len() == 0);
    }
}

proof fn lemma_encoding_length(chars: Seq<char>)
    ensures
        chars.len() <= encode_utf8(chars).len(),
    decreases chars.len(),
{
    if chars.len() > 0 {
        lemma_encoding_length(chars.drop_first());
    }
}

/// Establishes that the number of characters of a `str` fits in a `usize`:
/// it never exceeds the length in bytes, which a slice carries as a `usize`.
fn bound_char_count(text: &str)
    ensures
        text@.len() <= usize::MAX,
{
    let _ = text.as_bytes().len();
    proof {
        lemma_encoding_length(text@);
    }
}

fn count_char(subject: &str, c: char) -> (n: usize)
    requires
        subject@.len() <= usize::MAX,
    ensures
        n == occurrences(subject@, c),
{
    let mut n: usize = 0;
    for x in it: subject.chars()
        invariant
            it.seq() == subject@,
            subject@.len() <= usize::MAX,
            n == occurrences(subject@.take(it.index()), c),
            n <= it.index(),
    {
        assert(subject@.take(it.index() + 1).drop_last() =~= subject@.take(it.index()));
        if x == c {
            n = n + 1;
        }
    }
    assert(subject@.take(subject@.len() as int) =~= subject@);
    n
}

/// Scores `subject` against `query`.
///
/// The score is returned as a `u128`: the product of two lengths that each
/// fit in a `usize` always fits, so no text is too long to be scored.
pub fn compute_fuzzy_find_score(query: &str, subject: &str) -> (result: u128)
    ensures
        result == score(query@, subject@),
{
    bound_char_count(query);
    bound_char_count(subject);
    let mut total: u128 = 0;
    for c in it: query.chars()
        invariant
            it.seq() == query@,
            query@.len() <= usize::MAX,
            subject@.len() <= usize::MAX,
            total == score(query@.take(it.index()), subject@),
    {
        let n = count_char(subject, c);
        proof {
            assert(query@.take(it.index() + 1).drop_last() =~= query@.take(it.index()));
            lemma_score_bound(query@.take(it.index() + 1), subject@);
            assert(query@.take(it.index() + 1).len() * subject@.len() <= usize::MAX * usize::MAX)
                by (nonlinear_arith)
                requires
                    query@.take(it.index() + 1).len() <= usize::MAX,
                    subject@.len() <= usize::MAX,
            ;
        }
        total = total + n as u128;
    }
    assert(query@.take(query@.len() as int) =~= query@);
    total
}

/// Whether the candidate at position `i` is listed before the one at `j`:
/// the lower score comes first, and of two equal scores the earlier position.
pub open spec fn ranks_before(query: Seq<char>, list: Seq<Seq<char>>, i: int, j: int) -> bool {
    let si = score(query, list[i]);
    let sj = score(query, list[j]);
    si < sj || (si == sj && i < j)
}

/// Every earlier entry of `order` ranks before every later one.
pub open spec fn strictly_ranked(query: Seq<char>, list: Seq<Seq<char>>, order: Seq<int>) -> bool {
    forall|a: int, b: int|
        0 <= a < b < order.len() ==> ranks_before(
            query,
            list,
            #[trigger] order[a],
            #[trigger] order[b],
        )
}

/// `order` is the ranking of `list` for `query`: it holds the positions of
/// exactly those candidates whose score is positive, weakest match first,
/// equal scores in the order of the list.
pub open spec fn is_ranking(query: Seq<char>, list: Seq<Seq<char>>, order: Seq<int>) -> bool {
    &&& forall|k: int| 0 <= k < order.len() ==> 0 <= #[trigger] order[k] < list.len()
    &&& forall|k: int| 0 <= k < order.len() ==> score(query, list[#[trigger] order[k]]) > 0
    &&& forall|i: int|
        0 <= i < list.len() && score(query, list[i]) > 0 ==> #[trigger] order.contains(i)
    &&& strictly_ranked(query, list, order)
}

/// The ranking of `list` for `query`. There is exactly one: see
/// `lemma_ranking_exists` and `lemma_ranking_unique`.
pub open spec fn ranking(query: Seq<char>, list: Seq<Seq<char>>) -> Seq<int> {
    choose|order: Seq<int>| is_ranking(query, list, order)
}

/// What the picker shows for `query`: the whole list, untouched, for the
/// empty query; otherwise the candidates at the positions of the ranking.
pub open spec fn shown(query: Seq<char>, list: Seq<Seq<char>>) -> Seq<Seq<char>> {
    if query.len() == 0 {
        list
    } else {
        let order = ranking(query, list);
        Seq::new(order.len(), |k: int| list[order[k]])
    }
}

proof fn lemma_ranked_unique(query: Seq<char>, list: Seq<Seq<char>>, x: Seq<int>, y: Seq<int>)
    requires
        strictly_ranked(query, list, x),
        strictly_ranked(query, list, y),
        forall|v: int| x.contains(v) <==> y.contains(v),
    ensures
        x == y,
    decreases x.len(),
{
    if x.len() == 0 {
        if y.len() > 0 {
            assert(y.contains(y[0]));
            assert(x.contains(y[0]));
        }
        assert(x =~= y);
    } else {
        let xl = x.last();
        assert(x[x.len() - 1] == xl);
        assert(x.contains(xl));
        assert(y.contains(xl));
        let yl = y.last();
        assert(y[y.len() - 1] == yl);
        assert(y.contains(yl));
        assert(x.contains(yl));
        let kx = choose|k: int| 0 <= k < x.len() && x[k] == yl;
        let ky = choose|k: int| 0 <= k < y.len() && y[k] == xl;
        if kx < x.len() - 1 {
            assert(ranks_before(query, list, x[kx], x[x.len() - 1]));
        }
        if ky < y.len() - 1 {
            assert(ranks_before(query, list, y[ky], y[y.len() - 1]));
        }
        assert(xl == yl);
        let x1 = x.drop_last();
        let y1 = y.drop_last();
        assert forall|v: int| x1.contains(v) <==> y1.contains(v) by {
            if x1.contains(v) {
                let k = choose|k: int| 0 <= k < x1.len() && x1[k] == v;
                assert(ranks_before(query, list, x[k], x[x.len() - 1]));
                assert(x.contains(v));
                let m = choose|m: int| 0 <= m < y.len() && y[m] == v;
                assert(y1[m] == v);
            }
            if y1.contains(v) {
                let k = choose|k: int| 0 <= k < y1.len() && y1[k] == v;
                assert(ranks_before(query, list, y[k], y[y.len() - 1]));
                assert(y.contains(v));
                let m = choose|m: int| 0 <= m < x.len() && x[m] == v;
                assert(x1[m] == v);
            }
        }
        assert(strictly_ranked(query, list, x1)) by {
            assert forall|a: int, b: int| 0 <= a < b < x1.len() implies ranks_before(
                query,
                list,
                #[trigger] x1[a],
                #[trigger] x1[b],
            ) by {
                assert(ranks_before(query, list, x[a], x[b]));
            }
        }
        assert(strictly_ranked(query, list, y1)) by {
            assert forall|a: int, b: int| 0 <= a < b < y1.len() implies ranks_before(
                query,
                list,
                #[trigger] y1[a],
                #[trigger] y1[b],
            ) by {
                assert(ranks_before(query, list, y[a], y[b]));
            }
        }
        lemma_ranked_unique(query, list, x1, y1);
        assert(x =~= x1.push(xl));
        assert(y =~= y1.push(yl));
    }
}

/// Places position `i`, which lies behind every position of `rest`, into the
/// ranked sequence `rest`.
proof fn lemma_place(query: Seq<char>, list: Seq<Seq<char>>, rest: Seq<int>, i: int) -> (order:
    Seq<int>)
    requires
        strictly_ranked(query, list, rest),
        forall|k: int| 0 <= k < rest.len() ==> #[trigger] rest[k] < i,
    ensures
        strictly_ranked(query, list, order),
        order.len() == rest.len() + 1,
        forall|v: int| order.contains(v) <==> (rest.contains(v) || v == i),
    decreases rest.len(),
{
    if rest.len() == 0 {
        let order = seq![i];
        assert(order[0] == i);
        assert forall|v: int| order.contains(v) <==> (rest.contains(v) || v == i) by {
            if v == i {
                assert(order[0] == v);
            }
        }
        order
    } else {
        let last = rest.last();
        assert(rest[rest.len() - 1] == last);
        if score(query, list[last]) <= score(query, list[i]) {
            let order = rest.push(i);
            assert forall|a: int, b: int| 0 <= a < b < order.len() implies ranks_before(
                query,
                list,
                #[trigger] order[a],
                #[trigger] order[b],
            ) by {
                if b == rest.len() {
                    if a < rest.len() - 1 {
                        assert(ranks_before(query, list, rest[a], rest[rest.len() - 1]));
                    }
                } else {
                    assert(ranks_before(query, list, rest[a], rest[b]));
                }
            }
            assert forall|v: int| order.contains(v) <==> (rest.contains(v) || v == i) by {
                if rest.contains(v) {
                    let k = choose|k: int| 0 <= k < rest.len() && rest[k] == v;
                    assert(order[k] == v);
                }
                if v == i {
                    assert(order[rest.len() as int] == v);
                }
                if order.contains(v) {
                    let k = choose|k: int| 0 <= k < order.len() && order[k] == v;
                    if k < rest.len() {
                        assert(rest[k] == v);
                    }
                }
            }
            order
        } else {
            let front = rest.drop_last();
            assert(strictly_ranked(query, list, front)) by {
                assert forall|a: int, b: int| 0 <= a < b < front.len() implies ranks_before(
                    query,
                    list,
                    #[trigger] front[a],
                    #[trigger] front[b],
                ) by {
                    assert(ranks_before(query, list, rest[a], rest[b]));
                }
            }
            assert forall|k: int| 0 <= k < front.len() implies #[trigger] front[k] < i by {
                assert(rest[k] < i);
            }
            let inner = lemma_place(query, list, front, i);
            let order = inner.push(last);
            assert forall|a: int, b: int| 0 <= a < b < order.len() implies ranks_before(
                query,
                list,
                #[trigger] order[a],
                #[trigger] order[b],
            ) by {
                if b == inner.len() {
                    assert(inner.contains(inner[a]));
                    if front.contains(inner[a]) {
                        let k = choose|k: int| 0 <= k < front.len() && front[k] == inner[a];
                        assert(ranks_before(query, list, rest[k], rest[rest.len() - 1]));
                    }
                } else {
                    assert(ranks_before(query, list, inner[a], inner[b]));
                }
            }
            assert forall|v: int| order.contains(v) <==> (rest.contains(v) || v == i) by {
                if rest.contains(v) {
                    let k = choose|k: int| 0 <= k < rest.len() && rest[k] == v;
                    if k < rest.len() - 1 {
                        assert(front[k] == v);
                        assert(front.contains(v));
                        assert(inner.contains(v));
                        let m = choose|m: int| 0 <= m < inner.len() && inner[m] == v;
                        assert(order[m] == v);
                    } else {
                        assert(order[inner.len() as int] == v);
                    }
                }
                if v == i {
                    assert(inner.contains(v));
                    let m = choose|m: int| 0 <= m < inner.len() && inner[m] == v;
                    assert(order[m] == v);
                }
                if order.contains(v) {
                    let k = choose|k: int| 0 <= k < order.len() && order[k] == v;
                    if k < inner.len() {
                        assert(inner[k] == v);
                        assert(inner.contains(v));
                        if front.contains(v) {
                            let m = choose|m: int| 0 <= m < front.len() && front[m] == v;
                            assert(rest[m] == v);
                        }
                    } else {
                        assert(rest[rest.len() - 1] == v);
                    }
                }
            }
            order
        }
    }
}

proof fn lemma_build_ranking(query: Seq<char>, list: Seq<Seq<char>>) -> (order: Seq<int>)
    ensures
        is_ranking(query, list, order),
        order.len() <= list.len(),
    decreases list.len(),
{
    if list.len() == 0 {
        Seq::<int>::empty()
    } else {
        let front = list.drop_last();
        let i = list.len() - 1;
        let rest = lemma_build_ranking(query, front);
        assert forall|k: int| 0 <= k < rest.len() implies front[#[trigger] rest[k]] == list[rest[k]] by {}
        assert(strictly_ranked(query, list, rest)) by {
            assert forall|a: int, b: int| 0 <= a < b < rest.len() implies ranks_before(
                query,
                list,
                #[trigger] rest[a],
                #[trigger] rest[b],
            ) by {
                assert(ranks_before(query, front, rest[a], rest[b]));
            }
        }
        if score(query, list[i]) > 0 {
            let order = lemma_place(query, list, rest, i);
            assert forall|k: int| 0 <= k < order.len() implies 0 <= #[trigger] order[k]
                < list.len() && score(query, list[order[k]]) > 0 by {
                assert(order.contains(order[k]));
                if rest.contains(order[k]) {
                    let m = choose|m: int| 0 <= m < rest.len() && rest[m] == order[k];
                    assert(front[rest[m]] == list[rest[m]]);
                }
            }
            assert forall|j: int| 0 <= j < list.len() && score(query, list[j]) > 0 implies
                #[trigger] order.contains(j) by {
                if j < i {
                    assert(front[j] == list[j]);
                    assert(rest.contains(j));
                }
            }
            order
        } else {
            assert forall|j: int| 0 <= j < list.len() && score(query, list[j]) > 0 implies
                #[trigger] rest.contains(j) by {
                assert(front[j] == list[j]);
            }
            rest
        }
    }
}

/// Every list has a ranking for every query.
pub proof fn lemma_ranking_exists(query: Seq<char>, list: Seq<Seq<char>>)
    ensures
        is_ranking(query, list, ranking(query, list)),
{
    let order = lemma_build_ranking(query, list);
}

/// No query shows more entries than the list has candidates.
pub proof fn lemma_shown_length(query: Seq<char>, list: Seq<Seq<char>>)
    ensures
        shown(query, list).len() <= list.len(),
{
    if query.len() > 0 {
        let order = lemma_build_ranking(query, list);
        lemma_ranking_unique(query, list, order);
    }
}

/// A list has no second ranking for a query.
pub proof fn lemma_ranking_unique(query: Seq<char>, list: Seq<Seq<char>>, order: Seq<int>)
    requires
        is_ranking(query, list, order),
    ensures
        order == ranking(query, list),
{
    lemma_ranking_exists(query, list);
    let other = ranking(query, list);
    assert forall|v: int| order.contains(v) <==> other.contains(v) by {
        if order.contains(v) {
            let k = choose|k: int| 0 <= k < order.len() && order[k] == v;
            assert(other.contains(order[k]));
        }
        if other.contains(v) {
            let k = choose|k: int| 0 <= k < other.len() && other[k] == v;
            assert(order.contains(other[k]));
        }
    }
    lemma_ranked_unique(query, list, order, other);
}

/// An entry `(position, score)` stands for a candidate of `list` that
/// matches `query`.
pub open spec fn is_match_entry(
    query: Seq<char>,
    list: Seq<Seq<char>>,
    entry: (usize, u128),
) -> bool {
    &&& entry.0 < list.len()
    &&& entry.1 == score(query, list[entry.0 as int])
    &&& entry.1 > 0
}

/// Sorts `(position, score)` entries by score with `sort_by_key` of std's
/// slices. Its documentation promises a sort by the key that does not
/// reorder equal elements. The contract says that of entries whose
/// positions ascend: the same entries come back, scores ascending, and
/// entries of one score still with ascending positions.
#[verifier::external_body]
fn sort_by_score(entries: &mut Vec<(usize, u128)>)
    requires
        forall|a: int, b: int|
            0 <= a < b < old(entries)@.len() ==> old(entries)@[a].0 < old(entries)@[b].0,
    ensures
        final(entries)@.to_multiset() == old(entries)@.to_multiset(),
        forall|a: int, b: int|
            0 <= a < b < final(entries)@.len() ==> final(entries)@[a].1 <= final(entries)@[b].1,
        forall|a: int, b: int|
            0 <= a < b < final(entries)@.len() && final(entries)@[a].1 == final(entries)@[b].1
                ==> final(entries)@[a].0 < final(entries)@[b].0,
{
    entries.sort_by_key(|entry| entry.1);
}

fn clone_list(list: &[String]) -> (copy: Vec<String>)
    ensures
        copy.deep_view() == list.deep_view(),
{
    let mut copy: Vec<String> = Vec::new();
    let mut i: usize = 0;
    while i < list.len()
        invariant
            i <= list@.len(),
            copy@.len() == i,
            forall|k: int| 0 <= k < i ==> copy@[k]@ == list@[k]@,
        decreases list@.len() - i,
    {
        copy.push(list[i].clone());
        i = i + 1;
    }
    assert(copy.deep_view() =~= list.deep_view());
    copy
}

/// The candidates of `list` that `query` selects, in the order in which the
/// picker shows them.
///
/// The empty query selects every candidate, in the order of the list. Any
/// other query selects the candidates whose score is positive and lists the
/// weakest match first; candidates of equal score keep the order of the list.
pub fn fuzzy_find(query: &str, list: &[String]) -> (filtered: Vec<String>)
    ensures
        filtered.deep_view() == shown(query@, list.deep_view()),
{
    if query.is_empty() {
        return clone_list(list);
    }
    let ghost candidates = list.deep_view();
    let mut entries: Vec<(usize, u128)> = Vec::new();
    let mut i: usize = 0;
    while i < list.len()
        invariant
            i <= list@.len(),
            candidates == list.deep_view(),
            forall|k: int|
                0 <= k < entries@.len() ==> is_match_entry(query@, candidates, #[trigger] entries@[k])
                    && entries@[k].0 < i,
            forall|a: int, b: int|
                0 <= a < b < entries@.len() ==> entries@[a].0 < entries@[b].0,
            forall|j: int|
                0 <= j < i && score(query@, candidates[j]) > 0 ==> entries@.contains(
                    (j as usize, #[trigger] score(query@, candidates[j]) as u128),
                ),
        decreases list@.len() - i,
    {
        let ghost before = entries@;
        let points = compute_fuzzy_find_score(query, list[i].as_str());
        if points > 0 {
            entries.push((i, points));
            assert(entries@[before.len() as int] == (i, points));
        }
        assert forall|j: int| 0 <= j < i + 1 && score(query@, candidates[j]) > 0 implies
            entries@.contains((j as usize, #[trigger] score(query@, candidates[j]) as u128)) by {
            if j < i {
                let e = (j as usize, score(query@, candidates[j]) as u128);
                let k = choose|k: int| 0 <= k < before.len() && before[k] == e;
                assert(entries@[k] == e);
            }
        }
        i = i + 1;
    }
    let ghost unsorted = entries@;
    sort_by_score(&mut entries);
    let ghost order = Seq::new(entries@.len(), |k: int| entries@[k].0 as int);
    proof {
        unsorted.to_multiset_ensures();
        entries@.to_multiset_ensures();
        assert forall|k: int| 0 <= k < entries@.len() implies is_match_entry(
            query@,
            candidates,
            #[trigger] entries@[k],
        ) by {
            assert(entries@.contains(entries@[k]));
            assert(unsorted.to_multiset().count(entries@[k]) > 0);
        }
        assert forall|j: int| 0 <= j < candidates.len() && score(query@, candidates[j]) > 0 implies
            #[trigger] order.contains(j) by {
            let e = (j as usize, score(query@, candidates[j]) as u128);
            assert(unsorted.contains(e));
            assert(entries@.to_multiset().count(e) > 0);
            let k = choose|k: int| 0 <= k < entries@.len() && entries@[k] == e;
            assert(order[k] == j);
        }
        assert forall|a: int, b: int| 0 <= a < b < order.len() implies ranks_before(
            query@,
            candidates,
            #[trigger] order[a],
            #[trigger] order[b],
        ) by {
            assert(is_match_entry(query@, candidates, entries@[a]));
            assert(is_match_entry(query@, candidates, entries@[b]));
        }
        assert forall|k: int| 0 <= k < order.len() implies score(
            query@,
            candidates[#[trigger] order[k]],
        ) > 0 by {
            assert(is_match_entry(query@, candidates, entries@[k]));
        }
        assert forall|k: int| 0 <= k < order.len() implies 0 <= #[trigger] order[k]
            < candidates.len() by {
            assert(is_match_entry(query@, candidates, entries@[k]));
        }
        lemma_ranking_unique(query@, candidates, order);
    }
    let mut filtered: Vec<String> = Vec::new();
    let mut k: usize = 0;
    while k < entries.len()
        invariant
            k <= entries@.len(),
            candidates == list.deep_view(),
            order.len() == entries@.len(),
            forall|m: int| 0 <= m < entries@.len() ==> (#[trigger] entries@[m]).0 < list@.len(),
            forall|m: int| 0 <= m < entries@.len() ==> #[trigger] order[m] == entries@[m].0,
            filtered@.len() == k,
            forall|m: int| 0 <= m < k ==> #[trigger] filtered@[m]@ == candidates[order[m]],
        decreases entries@.len() - k,
    {
        let position = entries[k].0;
        filtered.push(list[position].clone());
        k = k + 1;
    }
    assert(filtered.deep_view() =~= shown(query@, candidates));
    filtered
}

/// The empty query shows every candidate, in the order of the list.
pub proof fn lemma_empty_query_shows_all(list: Seq<Seq<char>>)
    ensures
        shown(Seq::<char>::empty(), list) == list,
{
}

/// What a non-empty query shows is a choice of candidates, unaltered: every
/// entry shown has a positive score and is the candidate at a position of
/// the list, no position is used twice, and no candidate with a positive
/// score is left out.
pub proof fn lemma_shown_are_the_matches(query: Seq<char>, list: Seq<Seq<char>>)
    requires
        query.len() > 0,
    ensures
        ({
            let shown = shown(query, list);
            let order = ranking(query, list);
            &&& shown.len() == order.len()
            &&& forall|k: int| 0 <= k < shown.len() ==> score(query, #[trigger] shown[k]) > 0
            &&& forall|k: int|
                0 <= k < shown.len() ==> 0 <= #[trigger] order[k] < list.len() && shown[k]
                    == list[order[k]]
            &&& forall|a: int, b: int|
                0 <= a < b < order.len() ==> #[trigger] order[a] != #[trigger] order[b]
            &&& forall|i: int|
                0 <= i < list.len() && score(query, list[i]) > 0 ==> #[trigger] order.contains(i)
        }),
{
    lemma_ranking_exists(query, list);
    let order = ranking(query, list);
    assert forall|a: int, b: int| 0 <= a < b < order.len() implies #[trigger] order[a]
        != #[trigger] order[b] by {
        assert(ranks_before(query, list, order[a], order[b]));
    }
}

/// What a non-empty query shows is in ascending order of score, and
/// candidates of equal score are shown in the order in which the list has
/// them.
pub proof fn lemma_shown_in_stable_order(query: Seq<char>, list: Seq<Seq<char>>)
    requires
        query.len() > 0,
    ensures
        ({
            let shown = shown(query, list);
            let order = ranking(query, list);
            &&& forall|a: int, b: int|
                0 <= a < b < shown.len() ==> score(query, #[trigger] shown[a]) <= score(
                    query,
                    #[trigger] shown[b],
                )
            &&& forall|a: int, b: int|
                0 <= a < b < shown.len() && score(query, shown[a]) == score(query, shown[b])
                    ==> #[trigger] order[a] < #[trigger] order[b]
            &&& forall|i: int, j: int|
                0 <= i < j < list.len() && score(query, list[i]) > 0 && score(query, list[i])
                    == score(query, list[j]) ==> #[trigger] order.index_of(i) < #[trigger] order.index_of(
                    j,
                )
        }),
{
    lemma_ranking_exists(query, list);
    let shown = shown(query, list);
    let order = ranking(query, list);
    assert forall|a: int, b: int| 0 <= a < b < shown.len() implies score(
        query,
        #[trigger] shown[a],
    ) <= score(query, #[trigger] shown[b]) && (score(query, shown[a]) == score(query, shown[b])
        ==> order[a] < order[b]) by {
        assert(ranks_before(query, list, order[a], order[b]));
    }
    assert forall|i: int, j: int|
        0 <= i < j < list.len() && score(query, list[i]) > 0 && score(query, list[i]) == score(
            query,
            list[j],
        ) implies #[trigger] order.index_of(i) < #[trigger] order.index_of(j) by {
        assert(order.contains(i));
        assert(order.contains(j));
        let a = order.index_of(i);
        let b = order.index_of(j);
        if b < a {
            assert(ranks_before(query, list, order[b], order[a]));
        }
    }
}

} // verus!
