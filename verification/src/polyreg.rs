//! Grouping of a flat sequence under its headers.
use vstd::prelude::*;

verus! {

/// The content items that stand before the first header.
pub open spec fn leading_content<A, B>(s: Seq<Result<A, B>>) -> Seq<B>
    decreases s.len(),
{
    if s.len() == 0 {
        Seq::empty()
    } else {
        match s[0] {
            Ok(_) => Seq::empty(),
            Err(b) => seq![b] + leading_content(s.drop_first()),
        }
    }
}

/// Every header, in order, each with the content items that follow it up to
/// the next header or the end.
pub open spec fn header_runs<A, B>(s: Seq<Result<A, B>>) -> Seq<(A, Seq<B>)>
    decreases s.len(),
{
    if s.len() == 0 {
        Seq::empty()
    } else {
        match s[0] {
            Ok(a) => seq![(a, leading_content(s.drop_first()))] + header_runs(s.drop_first()),
            Err(_) => header_runs(s.drop_first()),
        }
    }
}

/// The runs of a result, each vector taken as the sequence it holds.
pub open spec fn runs_view<A, B>(runs: Seq<(A, Vec<B>)>) -> Seq<(A, Seq<B>)> {
    Seq::new(runs.len(), |k: int| (runs[k].0, runs[k].1@))
}

/// The sequence that a grouping stands for: the runs laid out again, each
/// header followed by its content.
pub open spec fn runs_flat<A, B>(runs: Seq<(A, Seq<B>)>) -> Seq<Result<A, B>>
    decreases runs.len(),
{
    if runs.len() == 0 {
        Seq::empty()
    } else {
        seq![Ok(runs[0].0)] + runs[0].1.map_values(|b: B| Err::<A, B>(b)) + runs_flat(
            runs.drop_first(),
        )
    }
}

/// A sequence without any header is its own leading content, and has no run.
pub proof fn lemma_split_all_content<A, B>(s: Seq<Result<A, B>>)
    requires
        forall|i: int| 0 <= i < s.len() ==> s[i] is Err,
    ensures
        leading_content(s) == Seq::new(s.len(), |i: int| s[i]->Err_0),
        header_runs(s) == Seq::<(A, Seq<B>)>::empty(),
    decreases s.len(),
{
    if s.len() > 0 {
        lemma_split_all_content(s.drop_first());
    }
    assert(leading_content(s) =~= Seq::new(s.len(), |i: int| s[i]->Err_0));
}

/// A sequence of headers alone has no leading content, and one run per
/// header, each of them empty.
pub proof fn lemma_split_all_headers<A, B>(s: Seq<Result<A, B>>)
    requires
        forall|i: int| 0 <= i < s.len() ==> s[i] is Ok,
    ensures
        leading_content(s) == Seq::<B>::empty(),
        header_runs(s) == Seq::new(s.len(), |i: int| (s[i]->Ok_0, Seq::<B>::empty())),
    decreases s.len(),
{
    if s.len() > 0 {
        let s1 = s.drop_first();
        lemma_split_all_headers(s1);
        if s1.len() > 0 {
            assert(s1[0] is Ok);
        }
        assert(leading_content(s1) =~= Seq::<B>::empty());
    }
    assert(header_runs(s) =~= Seq::new(s.len(), |i: int| (s[i]->Ok_0, Seq::<B>::empty())));
}

/// Grouping loses nothing and keeps the order: the leading content followed
/// by the runs, laid out again, is the sequence that was split.
pub proof fn lemma_split_keeps_everything<A, B>(s: Seq<Result<A, B>>)
    ensures
        leading_content(s).map_values(|b: B| Err::<A, B>(b)) + runs_flat(header_runs(s)) == s,
    decreases s.len(),
{
    let wrap = |b: B| Err::<A, B>(b);
    if s.len() == 0 {
        assert(runs_flat(header_runs(s)) =~= Seq::<Result<A, B>>::empty());
        assert(leading_content(s).map_values(wrap) + runs_flat(header_runs(s)) =~= s);
    } else {
        let s1 = s.drop_first();
        lemma_split_keeps_everything(s1);
        let rest = leading_content(s1).map_values(wrap) + runs_flat(header_runs(s1));
        assert(rest == s1);
        assert(s =~= seq![s[0]] + s1);
        match s[0] {
            Ok(a) => {
                let runs = header_runs(s);
                assert(runs[0] == (a, leading_content(s1)));
                assert(runs.drop_first() =~= header_runs(s1));
                assert(leading_content(s).map_values(wrap) =~= Seq::<Result<A, B>>::empty());
                assert(leading_content(s).map_values(wrap) + runs_flat(runs) =~= seq![s[0]] + rest);
            },
            Err(b) => {
                assert(leading_content(s).map_values(wrap) =~= seq![s[0]] + leading_content(
                    s1,
                ).map_values(wrap));
                assert(leading_content(s).map_values(wrap) + runs_flat(header_runs(s)) =~= seq![
                    s[0],
                ] + rest);
            },
        }
    }
}

/// A sequence with every header and every content item replaced by what
/// `on_header` and `on_content` make of it.
pub open spec fn map_tagged<A, B, C, D>(
    s: Seq<Result<A, B>>,
    on_header: spec_fn(A) -> C,
    on_content: spec_fn(B) -> D,
) -> Seq<Result<C, D>> {
    Seq::new(
        s.len(),
        |i: int|
            match s[i] {
                Ok(a) => Ok(on_header(a)),
                Err(b) => Err(on_content(b)),
            },
    )
}

/// Runs with every header and every content item replaced likewise.
pub open spec fn map_runs<A, B, C, D>(
    runs: Seq<(A, Seq<B>)>,
    on_header: spec_fn(A) -> C,
    on_content: spec_fn(B) -> D,
) -> Seq<(C, Seq<D>)> {
    Seq::new(runs.len(), |i: int| (on_header(runs[i].0), runs[i].1.map_values(on_content)))
}

/// Grouping looks only at which items are headers: to replace the items
/// and then group is to group and then replace.
pub proof fn lemma_split_of_mapped<A, B, C, D>(
    s: Seq<Result<A, B>>,
    on_header: spec_fn(A) -> C,
    on_content: spec_fn(B) -> D,
)
    ensures
        leading_content(map_tagged(s, on_header, on_content)) == leading_content(s).map_values(
            on_content,
        ),
        header_runs(map_tagged(s, on_header, on_content)) == map_runs(
            header_runs(s),
            on_header,
            on_content,
        ),
    decreases s.len(),
{
    let t = map_tagged(s, on_header, on_content);
    if s.len() > 0 {
        let s1 = s.drop_first();
        lemma_split_of_mapped(s1, on_header, on_content);
        assert(t.drop_first() =~= map_tagged(s1, on_header, on_content));
    }
    assert(leading_content(t) =~= leading_content(s).map_values(on_content));
    assert(header_runs(t) =~= map_runs(header_runs(s), on_header, on_content));
}

/// Content items up to a header, or up to the end, are the leading content
/// of the whole, and add no run to it.
pub proof fn lemma_content_then_rest<A, B>(content: Seq<B>, rest: Seq<Result<A, B>>)
    requires
        rest.len() == 0 || rest[0] is Ok,
    ensures
        leading_content(content.map_values(|b: B| Err::<A, B>(b)) + rest) == content,
        header_runs(content.map_values(|b: B| Err::<A, B>(b)) + rest) == header_runs(rest),
    decreases content.len(),
{
    let wrap = |b: B| Err::<A, B>(b);
    let whole = content.map_values(wrap) + rest;
    if content.len() == 0 {
        assert(whole =~= rest);
        assert(leading_content(rest) =~= content);
    } else {
        let tail = content.drop_first();
        lemma_content_then_rest(tail, rest);
        assert(whole.drop_first() =~= tail.map_values(wrap) + rest);
        assert(whole[0] == Err::<A, B>(content[0]));
        assert(leading_content(whole) =~= content);
    }
}

/// A header with the content items up to the next header, or up to the
/// end, makes one run: that header with just those items.
pub proof fn lemma_header_then_rest<A, B>(header: A, content: Seq<B>, rest: Seq<Result<A, B>>)
    requires
        rest.len() == 0 || rest[0] is Ok,
    ensures
        leading_content(seq![Ok::<A, B>(header)] + content.map_values(|b: B| Err::<A, B>(b)) + rest)
            == Seq::<B>::empty(),
        header_runs(seq![Ok::<A, B>(header)] + content.map_values(|b: B| Err::<A, B>(b)) + rest)
            == seq![(header, content)] + header_runs(rest),
{
    let wrap = |b: B| Err::<A, B>(b);
    let whole = seq![Ok::<A, B>(header)] + content.map_values(wrap) + rest;
    lemma_content_then_rest(content, rest);
    assert(whole.drop_first() =~= content.map_values(wrap) + rest);
    assert(whole[0] == Ok::<A, B>(header));
}

/// What one more header at the end does to the grouping: it opens a new,
/// empty run and leaves the rest as it was.
pub proof fn lemma_push_header<A, B>(s: Seq<Result<A, B>>, a: A)
    ensures
        leading_content(s.push(Ok(a))) == leading_content(s),
        header_runs(s.push(Ok(a))) == header_runs(s).push((a, Seq::<B>::empty())),
    decreases s.len(),
{
    let t = s.push(Ok(a));
    if s.len() == 0 {
        assert(t.drop_first() =~= Seq::<Result<A, B>>::empty());
        assert(leading_content(t.drop_first()) =~= Seq::<B>::empty());
        assert(header_runs(t.drop_first()) =~= Seq::<(A, Seq<B>)>::empty());
        assert(header_runs(t) =~= header_runs(s).push((a, Seq::<B>::empty())));
    } else {
        assert(t.drop_first() =~= s.drop_first().push(Ok(a)));
        lemma_push_header(s.drop_first(), a);
        assert(header_runs(t) =~= header_runs(s).push((a, Seq::<B>::empty())));
        assert(leading_content(t) =~= leading_content(s));
    }
}

/// What one more content item at the end does to the grouping: it joins the
/// last run, or the leading content where no header came before it.
pub proof fn lemma_push_content<A, B>(s: Seq<Result<A, B>>, b: B)
    ensures
        header_runs(s).len() == 0 ==> {
            &&& leading_content(s.push(Err(b))) == leading_content(s).push(b)
            &&& header_runs(s.push(Err(b))) == Seq::<(A, Seq<B>)>::empty()
        },
        header_runs(s).len() > 0 ==> {
            &&& leading_content(s.push(Err(b))) == leading_content(s)
            &&& header_runs(s.push(Err(b))) == header_runs(s).drop_last().push(
                (header_runs(s).last().0, header_runs(s).last().1.push(b)),
            )
        },
    decreases s.len(),
{
    let t = s.push(Err(b));
    if s.len() == 0 {
        assert(t.drop_first() =~= Seq::<Result<A, B>>::empty());
        assert(leading_content(t.drop_first()) =~= Seq::<B>::empty());
        assert(header_runs(t.drop_first()) =~= Seq::<(A, Seq<B>)>::empty());
        assert(leading_content(t) =~= leading_content(s).push(b));
    } else {
        let s1 = s.drop_first();
        assert(t.drop_first() =~= s1.push(Err(b)));
        lemma_push_content(s1, b);
        match s[0] {
            Ok(a) => {
                let first = (a, leading_content(s1));
                if header_runs(s1).len() == 0 {
                    assert(header_runs(s) =~= seq![first]);
                    assert(header_runs(t) =~= seq![(a, leading_content(s1).push(b))]);
                    assert(header_runs(t) =~= header_runs(s).drop_last().push(
                        (header_runs(s).last().0, header_runs(s).last().1.push(b)),
                    ));
                } else {
                    assert(header_runs(t) =~= header_runs(s).drop_last().push(
                        (header_runs(s).last().0, header_runs(s).last().1.push(b)),
                    ));
                }
            },
            Err(c) => {
                if header_runs(s).len() == 0 {
                    assert(leading_content(t) =~= leading_content(s).push(b));
                }
            },
        }
    }
}

/// The positions of the headers, in order.
pub open spec fn header_positions<A, B>(s: Seq<Result<A, B>>) -> Seq<int>
    decreases s.len(),
{
    if s.len() == 0 {
        Seq::empty()
    } else {
        let before = header_positions(s.drop_last());
        if s.last() is Ok {
            before.push(s.len() - 1)
        } else {
            before
        }
    }
}

/// The content items from one position up to another.
pub open spec fn content_between<A, B>(s: Seq<Result<A, B>>, from: int, to: int) -> Seq<B> {
    Seq::new((to - from) as nat, |k: int| s[from + k]->Err_0)
}

/// Where the run of the header numbered `j` ends: at the next header, or at
/// the end of the sequence.
pub open spec fn run_end<A, B>(s: Seq<Result<A, B>>, j: int) -> int {
    let positions = header_positions(s);
    if j + 1 < positions.len() {
        positions[j + 1]
    } else {
        s.len() as int
    }
}

/// The positions of the headers are just the positions at which a header
/// stands, each once, from left to right.
pub proof fn lemma_header_positions<A, B>(s: Seq<Result<A, B>>)
    ensures
        forall|j: int|
            0 <= j < header_positions(s).len() ==> 0 <= (#[trigger] header_positions(s)[j])
                < s.len() && s[header_positions(s)[j]] is Ok,
        forall|j: int, k: int|
            0 <= j < k < header_positions(s).len() ==> header_positions(s)[j] < header_positions(
                s,
            )[k],
        forall|i: int|
            0 <= i < s.len() ==> ((#[trigger] s[i]) is Ok <==> header_positions(s).contains(i)),
    decreases s.len(),
{
    if s.len() > 0 {
        let rest = s.drop_last();
        let before = header_positions(rest);
        let all = header_positions(s);
        lemma_header_positions(rest);
        assert forall|i: int| 0 <= i < s.len() implies ((#[trigger] s[i]) is Ok <==> all.contains(
            i,
        )) by {
            if i < rest.len() {
                assert(rest[i] == s[i]);
                if before.contains(i) {
                    let j = choose|j: int| 0 <= j < before.len() && before[j] == i;
                    assert(all[j] == i);
                }
                if all.contains(i) {
                    let j = choose|j: int| 0 <= j < all.len() && all[j] == i;
                    assert(before[j] == i);
                }
            } else {
                if s[i] is Ok {
                    assert(all[all.len() - 1] == i);
                }
                if all.contains(i) {
                    let j = choose|j: int| 0 <= j < all.len() && all[j] == i;
                    if j < before.len() {
                        assert(before[j] < rest.len());
                    }
                }
            }
        }
        assert forall|j: int| 0 <= j < all.len() implies 0 <= (#[trigger] all[j]) < s.len()
            && s[all[j]] is Ok by {
            if j < before.len() {
                assert(rest[before[j]] == s[before[j]]);
            }
        }
    }
}

/// The grouping told by positions: there is one run for each header; the run
/// numbered `j` has the header at the position numbered `j` and the content
/// items from there up to the next header or the end; and the leading
/// content is what stands before the first header.
pub proof fn lemma_runs_by_position<A, B>(s: Seq<Result<A, B>>)
    ensures
        header_runs(s).len() == header_positions(s).len(),
        leading_content(s) == content_between(
            s,
            0,
            if header_positions(s).len() > 0 {
                header_positions(s)[0]
            } else {
                s.len() as int
            },
        ),
        forall|j: int|
            0 <= j < header_positions(s).len() ==> (#[trigger] header_runs(s)[j]) == (
                s[header_positions(s)[j]]->Ok_0,
                content_between(s, header_positions(s)[j] + 1, run_end(s, j)),
            ),
    decreases s.len(),
{
    if s.len() == 0 {
        assert(leading_content(s) =~= content_between(s, 0, 0));
    } else {
        let rest = s.drop_last();
        let before = header_positions(rest);
        let all = header_positions(s);
        lemma_runs_by_position(rest);
        lemma_header_positions(rest);
        lemma_header_positions(s);
        assert(s =~= rest.push(s.last()));
        let runs = header_runs(rest);
        match s.last() {
            Ok(a) => {
                lemma_push_header(rest, a);
                assert(header_runs(s) == runs.push((a, Seq::<B>::empty())));
                if before.len() == 0 {
                    assert(leading_content(s) =~= content_between(s, 0, all[0]));
                } else {
                    assert(all[0] == before[0]);
                    assert(leading_content(s) =~= content_between(s, 0, all[0]));
                }
                assert forall|j: int| 0 <= j < all.len() implies (#[trigger] header_runs(s)[j]) == (
                    s[all[j]]->Ok_0,
                    content_between(s, all[j] + 1, run_end(s, j)),
                ) by {
                    if j < before.len() {
                        assert(all[j] == before[j]);
                        assert(header_runs(s)[j] == runs[j]);
                        assert(run_end(s, j) == run_end(rest, j));
                        assert(content_between(s, all[j] + 1, run_end(s, j)) =~= content_between(
                            rest,
                            before[j] + 1,
                            run_end(rest, j),
                        ));
                    } else {
                        assert(content_between(s, all[j] + 1, run_end(s, j)) =~= Seq::<B>::empty());
                    }
                }
            },
            Err(b) => {
                lemma_push_content(rest, b);
                assert(all == before);
                if before.len() == 0 {
                    assert(leading_content(s) =~= content_between(s, 0, s.len() as int));
                } else {
                    assert(leading_content(s) =~= content_between(s, 0, all[0]));
                    let last = before.len() - 1;
                    assert forall|j: int| 0 <= j < all.len() implies (#[trigger] header_runs(
                        s,
                    )[j]) == (s[all[j]]->Ok_0, content_between(s, all[j] + 1, run_end(s, j))) by {
                        if j < last {
                            assert(header_runs(s)[j] == runs[j]);
                            assert(run_end(s, j) == run_end(rest, j));
                            assert(content_between(s, all[j] + 1, run_end(s, j))
                                =~= content_between(rest, before[j] + 1, run_end(rest, j)));
                        } else {
                            assert(header_runs(s)[j] == (runs[last].0, runs[last].1.push(b)));
                            assert(content_between(s, all[j] + 1, run_end(s, j))
                                =~= content_between(rest, before[j] + 1, run_end(rest, j)).push(b));
                        }
                    }
                }
            },
        }
    }
}

/// Splits a sequence of headers (`Ok`) and content items (`Err`) into the
/// content before the first header and, for each header, the content that
/// follows it up to the next header.
pub fn split_vec<A, B>(vector: Vec<Result<A, B>>) -> (r: (Vec<B>, Vec<(A, Vec<B>)>))
    ensures
        r.0@ == leading_content(vector@),
        runs_view(r.1@) == header_runs(vector@),
{
    let mut before: Vec<B> = Vec::new();
    let mut after: Vec<(A, Vec<B>)> = Vec::new();
    let mut current_header: Option<A> = None;
    let mut current: Vec<B> = Vec::new();
    let ghost s = vector@;
    for item in it: vector
        invariant
            it.seq() == s,
            match current_header {
                None => {
                    &&& before@.len() == 0
                    &&& after@.len() == 0
                    &&& header_runs(s.take(it.index() as int)).len() == 0
                    &&& current@ == leading_content(s.take(it.index() as int))
                },
                Some(h) => {
                    &&& before@ == leading_content(s.take(it.index() as int))
                    &&& header_runs(s.take(it.index() as int)) == runs_view(after@).push(
                        (h, current@),
                    )
                },
            },
    {
        let ghost seen = s.take(it.index() as int);
        proof {
            assert(s.take(it.index() + 1) =~= seen.push(item));
        }
        match item {
            Ok(a) => {
                proof {
                    lemma_push_header(seen, a);
                }
                match current_header {
                    Some(h) => {
                        let ghost runs = runs_view(after@).push((h, current@));
                        after.push((h, current));
                        assert(runs_view(after@) =~= runs);
                    },
                    None => {
                        before = current;
                        assert(runs_view(after@) =~= Seq::<(A, Seq<B>)>::empty());
                    },
                }
                current_header = Some(a);
                current = Vec::new();
            },
            Err(b) => {
                proof {
                    lemma_push_content(seen, b);
                }
                proof {
                    if current_header is Some {
                        assert(runs_view(after@).push((current_header->0, current@)).drop_last()
                            =~= runs_view(after@));
                    }
                }
                current.push(b);
            },
        }
    }
    proof {
        assert(s.take(s.len() as int) =~= s);
    }
    match current_header {
        Some(h) => {
            let ghost runs = runs_view(after@).push((h, current@));
            after.push((h, current));
            assert(runs_view(after@) =~= runs);
        },
        None => {
            before = current;
            assert(runs_view(after@) =~= Seq::<(A, Seq<B>)>::empty());
        },
    }
    (before, after)
}

} // verus!
