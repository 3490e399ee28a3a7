//! What a walker gives out over a whole walk, whatever the number of threads.

use vstd::prelude::*;

use crate::error::EntryErrorModel;
use crate::mapper::{
    law_entries_are_opened_where_they_were_found, law_stored_attributes_are_those_told,
    law_streams_have_the_metadata_of_their_file, law_type_is_stored_as_found, mapping, EntryInfo,
    EntryModel, LocalSourceSaveOptions,
};
use crate::node::NodeTypeModel;
use crate::open_file::OpenModel;
use crate::order::{begins_with, lemma_extensions_are_contiguous, lex_order};
use crate::path::{
    law_below_means_longer_and_agreeing, lemma_part_order, lemma_path_order, part_order,
    path_order, strictly_under, PartModel,
};
use crate::sort::{
    is_sorted, is_stable_sort, law_sort_permutes, law_sort_undoes_permutation,
    ranks_are_distinct, ties, Ranked,
};
use crate::source::{entries_ascend, law_sorted_walk_ascends, WalkResult};
use crate::walker::{
    all_output, all_skipped, group_of, group_output, group_skipped, host_group, is_reparse_dir,
    is_root, on_chunk, on_found, on_listed, on_next, on_pulled, passed_over, siblings, still_open,
    stream_entry, stream_list, walk_model, ActionModel, GroupModel, ItemModel, OutputModel, StreamsModel,
    WalkModel, WalkerModel,
};
use crate::win_ads::AdsName;

verus! {

/// What a list of results comes to, each result by itself.
pub open spec fn groups_of(items: Seq<ItemModel>) -> Seq<GroupModel> {
    items.map_values(|item: ItemModel| group_of(item))
}

/// What a walker that stands at `w` gives out when it is driven to the end, and the walk has
/// `items` left.
pub open spec fn driven(w: WalkerModel, items: Seq<ItemModel>) -> Seq<OutputModel>
    decreases items.len(), w.buffered.len() + 1,
{
    match on_next(w) {
        (there, ActionModel::Yield(output)) => if there.buffered.len() < w.buffered.len() {
            seq![output] + driven(there, items)
        } else {
            seq![output]
        },
        (there, ActionModel::PullChunk(most)) => {
            let n = if most as int <= items.len() {
                most as int
            } else {
                items.len() as int
            };
            if 0 < n <= items.len() {
                let rest = items.skip(n);
                match on_chunk(there, groups_of(items.take(n))) {
                    (after, ActionModel::Yield(output)) => seq![output] + driven(after, rest),
                    (after, _) => driven(after, rest),
                }
            } else {
                Seq::empty()
            }
        },
        (there, _) => driven_on(there, items),
    }
}

/// What a walker gives out when it waits for the next result.
pub open spec fn driven_on(w: WalkerModel, items: Seq<ItemModel>) -> Seq<OutputModel>
    decreases items.len(), 0nat,
{
    if items.len() == 0 {
        Seq::empty()
    } else {
        let (item, rest) = (items[0], items.skip(1));
        match on_pulled(w, Some(item.walked)) {
            (there, ActionModel::Yield(output)) => seq![output] + driven(there, rest),
            (there, ActionModel::Look(_)) => match on_found(there, item.mapped) {
                (after, ActionModel::ListStreams(host)) => match on_listed(
                    after,
                    host,
                    item.streams,
                ) {
                    (behind, ActionModel::Yield(output)) => seq![output] + driven(behind, rest),
                    (behind, _) => driven(behind, rest),
                },
                (after, ActionModel::Yield(output)) => seq![output] + driven(after, rest),
                (after, _) => driven(after, rest),
            },
            (there, _) => driven_on(there, rest),
        }
    }
}

/// What is given out when the results are taken up one by one.
pub open spec fn one_by_one(skipped: Seq<Seq<PartModel>>, items: Seq<ItemModel>) -> Seq<OutputModel>
    decreases items.len(),
{
    if items.len() == 0 {
        Seq::empty()
    } else {
        let (item, rest) = (items[0], items.skip(1));
        match item.walked {
            WalkModel::Failed(cause) => seq![
                Err::<EntryModel, EntryErrorModel>(EntryErrorModel::Walk(cause)),
            ] + one_by_one(skipped, rest),
            WalkModel::Entry(path, _, _) => if is_root(item.walked) {
                one_by_one(skipped, rest)
            } else {
                let open = still_open(skipped, path);
                if passed_over(open, path) {
                    one_by_one(open, rest)
                } else {
                    match item.mapped {
                        Err(e) => seq![
                            Err::<EntryModel, EntryErrorModel>(EntryErrorModel::Mapping(e)),
                        ] + one_by_one(open, rest),
                        Ok(host) => host_group(path, host, item.streams).entries + one_by_one(
                            if is_reparse_dir(host) {
                                open.push(host.path)
                            } else {
                                open
                            },
                            rest,
                        ),
                    }
                }
            },
        }
    }
}

/// A single-threaded walker gives out what the results come to one by one.
pub proof fn law_single_thread_takes_results_one_by_one(w: WalkerModel, items: Seq<ItemModel>)
    requires
        w.threads <= 1,
    ensures
        driven(w, items) == w.buffered + one_by_one(w.skipped, items),
        w.buffered.len() == 0 ==> driven_on(w, items) == one_by_one(w.skipped, items),
    decreases items.len(), w.buffered.len(),
{
    if w.buffered.len() > 0 {
        let there = on_next(w).0;
        law_single_thread_takes_results_one_by_one(there, items);
        assert(driven(w, items) =~= w.buffered + one_by_one(w.skipped, items));
    } else {
        assert(driven(w, items) == driven_on(w, items));
        assert(w.buffered + one_by_one(w.skipped, items) =~= one_by_one(w.skipped, items));
        if items.len() > 0 {
            let (item, rest) = (items[0], items.skip(1));
            let (there, action) = on_pulled(w, Some(item.walked));
            match action {
                ActionModel::Yield(output) => {
                    law_single_thread_takes_results_one_by_one(there, rest);
                    let tail = one_by_one(there.skipped, rest);
                    assert(there.buffered + tail =~= tail);
                },
                ActionModel::Look(_) => {
                    let (after, next) = on_found(there, item.mapped);
                    match next {
                        ActionModel::ListStreams(host) => {
                            let behind = on_listed(after, host, item.streams).0;
                            law_single_thread_takes_results_one_by_one(behind, rest);
                            let tail = one_by_one(behind.skipped, rest);
                            let line = siblings(host, item.streams);
                            assert(behind.buffered =~= line);
                            let first = seq![Ok::<EntryModel, EntryErrorModel>(host)];
                            assert(first + (line + tail) =~= (first + line) + tail);
                        },
                        ActionModel::Yield(output) => {
                            law_single_thread_takes_results_one_by_one(after, rest);
                            let tail = one_by_one(after.skipped, rest);
                            assert(after.buffered + tail =~= tail);
                            if let Ok(host) = item.mapped {
                                let first = seq![Ok::<EntryModel, EntryErrorModel>(host)];
                                assert(siblings(host, item.streams) =~= Seq::empty());
                                assert(first + siblings(host, item.streams) =~= first);
                            }
                        },
                        _ => {},
                    }
                },
                _ => {
                    law_single_thread_takes_results_one_by_one(there, rest);
                },
            }
        }
    }
}

/// It does not matter where one chunk ends and the next begins.
pub proof fn law_chunk_boundaries_do_not_matter(
    skipped: Seq<Seq<PartModel>>,
    a: Seq<GroupModel>,
    b: Seq<GroupModel>,
)
    ensures
        all_skipped(skipped, a + b) == all_skipped(all_skipped(skipped, a), b),
        all_output(skipped, a + b) == all_output(skipped, a) + all_output(
            all_skipped(skipped, a),
            b,
        ),
    decreases b.len(),
{
    if b.len() == 0 {
        assert(a + b =~= a);
        assert(all_output(skipped, a) + Seq::empty() =~= all_output(skipped, a));
    } else {
        law_chunk_boundaries_do_not_matter(skipped, a, b.drop_last());
        assert((a + b).drop_last() =~= a + b.drop_last());
        assert((a + b).last() == b.last());
        assert(all_output(skipped, a + b) =~= all_output(skipped, a) + all_output(
            all_skipped(skipped, a),
            b,
        ));
    }
}

/// A walker with several threads gives out what the results come to each by itself.
pub proof fn law_threads_take_results_each_by_itself(w: WalkerModel, items: Seq<ItemModel>)
    requires
        w.threads > 1,
    ensures
        driven(w, items) == w.buffered + all_output(w.skipped, groups_of(items)),
    decreases items.len(), w.buffered.len(),
{
    if w.buffered.len() > 0 {
        let there = on_next(w).0;
        law_threads_take_results_each_by_itself(there, items);
        assert(driven(w, items) =~= w.buffered + all_output(w.skipped, groups_of(items)));
    } else if items.len() > 0 {
        let most = crate::walker::NODE_BUILD_CHUNK as int;
        let n = if most <= items.len() {
            most
        } else {
            items.len() as int
        };
        let (front, rest) = (items.take(n), items.skip(n));
        let groups = groups_of(front);
        let (after, action) = on_chunk(w, groups);
        assert(groups_of(items) =~= groups + groups_of(rest));
        law_chunk_boundaries_do_not_matter(w.skipped, groups, groups_of(rest));
        let line = all_output(w.skipped, groups);
        assert(w.buffered + line =~= line);
        law_threads_take_results_each_by_itself(after, rest);
        let tail = all_output(all_skipped(w.skipped, groups), groups_of(rest));
        if line.len() > 0 {
            assert(seq![line[0]] + (line.drop_first() + tail) =~= line + tail);
        } else {
            assert(line + tail =~= tail);
            assert(after.buffered + tail =~= tail);
        }
        assert(w.buffered + all_output(w.skipped, groups_of(items)) =~= line + tail);
    } else {
        assert(groups_of(items) =~= Seq::empty());
        assert(w.buffered + all_output(w.skipped, groups_of(items)) =~= Seq::empty());
    }
}

/// Entries keep the path at which the walk found them.
pub open spec fn paths_are_kept(items: Seq<ItemModel>) -> bool {
    forall|i: int|
        0 <= i < items.len() ==> match ((#[trigger] items[i]).walked, items[i].mapped) {
            (WalkModel::Entry(path, _, _), Ok(host)) => host.path == path,
            _ => true,
        }
}

proof fn lemma_one_by_one_is_each_by_itself(
    skipped: Seq<Seq<PartModel>>,
    items: Seq<ItemModel>,
)
    requires
        paths_are_kept(items),
    ensures
        one_by_one(skipped, items) == all_output(skipped, groups_of(items)),
    decreases items.len(),
{
    if items.len() > 0 {
        let (item, rest) = (items[0], items.skip(1));
        let group = group_of(item);
        assert(paths_are_kept(rest)) by {
            assert forall|i: int| 0 <= i < rest.len() implies match (
                (#[trigger] rest[i]).walked,
                rest[i].mapped,
            ) {
                (WalkModel::Entry(path, _, _), Ok(host)) => host.path == path,
                _ => true,
            } by {
                assert(rest[i] == items[i + 1]);
            }
        }
        assert(groups_of(items) =~= seq![group] + groups_of(rest));
        law_chunk_boundaries_do_not_matter(skipped, seq![group], groups_of(rest));
        assert(seq![group].drop_last() =~= Seq::empty());
        assert(all_skipped(skipped, Seq::empty()) == skipped);
        assert(all_output(skipped, Seq::empty()) =~= Seq::empty());
        assert(all_skipped(skipped, seq![group]) == group_skipped(skipped, group));
        assert(all_output(skipped, seq![group]) =~= group_output(skipped, group));
        let tail = all_output(group_skipped(skipped, group), groups_of(rest));
        assert(Seq::<OutputModel>::empty() + tail =~= tail);
        lemma_one_by_one_is_each_by_itself(group_skipped(skipped, group), rest);
    } else {
        assert(groups_of(items) =~= Seq::empty());
    }
}

/// A walk gives out the same entries in the same order with one thread and with several.
pub proof fn law_threads_do_not_matter(
    single: WalkerModel,
    several: WalkerModel,
    items: Seq<ItemModel>,
)
    requires
        single.threads <= 1,
        several.threads > 1,
        single.buffered == several.buffered,
        single.skipped == several.skipped,
        paths_are_kept(items),
    ensures
        driven(several, items) == driven(single, items),
{
    law_single_thread_takes_results_one_by_one(single, items);
    law_threads_take_results_each_by_itself(several, items);
    lemma_one_by_one_is_each_by_itself(single.skipped, items);
}

/// What looking at a result of the walk gives.
pub type Looked = (Result<EntryModel, crate::error::ErrorModel>, StreamsModel);

/// The results of a walk with what looking at each of them gives.
pub open spec fn looked_at(
    walk: Seq<WalkResult>,
    look: spec_fn(WalkModel) -> Looked,
) -> Seq<ItemModel> {
    walk.map_values(
        |result: WalkResult| ItemModel {
            walked: walk_model(result),
            mapped: look(walk_model(result)).0,
            streams: look(walk_model(result)).1,
        },
    )
}

/// The entries of a walk without its failures.
pub open spec fn entries_only(walk: Seq<WalkResult>) -> Seq<WalkResult> {
    walk.filter(|result: WalkResult| result is Ok)
}

/// What is given out, without the failures of the walk.
pub open spec fn entry_outputs(outputs: Seq<OutputModel>) -> Seq<OutputModel> {
    outputs.filter(|output: OutputModel| !(output matches Err(EntryErrorModel::Walk(_))))
}

proof fn lemma_entries_only_keeps(walk: Seq<WalkResult>, x: WalkResult)
    ensures
        entries_only(walk).contains(x) <==> walk.contains(x) && x is Ok,
        entries_only(walk).to_multiset().count(x) == if x is Ok {
            walk.to_multiset().count(x)
        } else {
            0
        },
        ties(entries_only(walk), x) == if x is Ok {
            ties(walk, x)
        } else {
            Seq::empty()
        },
    decreases walk.len(),
{
    broadcast use vstd::seq_lib::group_to_multiset_ensures;

    reveal(Seq::filter);
    let now = entries_only(walk);
    if walk.len() > 0 {
        let (front, last) = (walk.drop_last(), walk.last());
        lemma_entries_only_keeps(front, x);
        let before = entries_only(front);
        assert(walk =~= front.push(last));
        assert(walk.contains(x) <==> front.contains(x) || x == last) by {
            assert(walk[walk.len() - 1] == last);
            if front.contains(x) {
                assert(walk[front.index_of(x)] == x);
            }
            if walk.contains(x) && x != last {
                assert(front[walk.index_of(x)] == x);
            }
        }
        if last is Ok {
            assert(now == before.push(last));
            assert(now.contains(x) <==> before.contains(x) || x == last) by {
                assert(now[before.len() as int] == last);
                if before.contains(x) {
                    assert(now[before.index_of(x)] == x);
                }
                if now.contains(x) && x != last {
                    assert(before[now.index_of(x)] == x);
                }
            }
            assert(now.drop_last() =~= before);
        } else {
            assert(now == before);
        }
    }
}

/// The entries of a walk in the order of paths are sorted when the failures are left out.
proof fn lemma_entries_only_sorted(walk: Seq<WalkResult>)
    requires
        entries_ascend(walk),
    ensures
        is_sorted(entries_only(walk)),
    decreases walk.len(),
{
    reveal(Seq::filter);
    if walk.len() > 0 {
        let (front, last) = (walk.drop_last(), walk.last());
        assert(entries_ascend(front)) by {
            assert forall|i: int, j: int| 0 <= i < j < front.len() implies match (
                #[trigger] front[i],
                #[trigger] front[j],
            ) {
                (Ok(a), Ok(b)) => path_order(a.path@, b.path@) <= 0,
                _ => true,
            } by {
                assert(front[i] == walk[i] && front[j] == walk[j]);
            }
        }
        lemma_entries_only_sorted(front);
        let (before, now) = (entries_only(front), entries_only(walk));
        if last is Ok {
            assert(now == before.push(last));
            assert forall|i: int, j: int| 0 <= i < j < now.len() implies (
            #[trigger] now[i]).at_most(#[trigger] now[j]) by {
                if j < before.len() {
                    assert(before[i].at_most(before[j]));
                } else {
                    lemma_entries_only_keeps(front, before[i]);
                    assert(before.contains(before[i]));
                    let k = front.index_of(before[i]);
                    assert(walk[k] == before[i] && walk[walk.len() - 1] == last);
                }
            }
        }
    }
}

/// Failures of the walk have no say in what becomes of its entries.
proof fn lemma_failures_have_no_say(
    skipped: Seq<Seq<PartModel>>,
    walk: Seq<WalkResult>,
    look: spec_fn(WalkModel) -> Looked,
)
    ensures
        entry_outputs(one_by_one(skipped, looked_at(walk, look))) == entry_outputs(
            one_by_one(skipped, looked_at(entries_only(walk), look)),
        ),
    decreases walk.len(),
{
    if walk.len() == 0 {
        reveal(Seq::filter);
        assert(entries_only(walk) =~= walk);
    } else {
        let (first, rest) = (walk[0], walk.skip(1));
        let keep = |output: OutputModel| !(output matches Err(EntryErrorModel::Walk(_)));
        assert(walk =~= seq![first] + rest);
        Seq::filter_distributes_over_add(seq![first], rest, |result: WalkResult| result is Ok);
        let (items, later) = (looked_at(walk, look), looked_at(rest, look));
        assert(items.skip(1) =~= later);
        if first is Err {
            reveal_with_fuel(Seq::filter, 2);
            assert(seq![first].drop_last() =~= Seq::empty());
            assert(entries_only(seq![first]) =~= Seq::empty());
            assert(entries_only(walk) =~= entries_only(rest));
            lemma_failures_have_no_say(skipped, rest, look);
            let failure = seq![one_by_one(skipped, items)[0]];
            Seq::filter_distributes_over_add(failure, one_by_one(skipped, later), keep);
            assert(failure.drop_last() =~= Seq::empty());
            assert(entry_outputs(failure) =~= Seq::empty());
            assert(entry_outputs(one_by_one(skipped, items)) =~= entry_outputs(
                one_by_one(skipped, later),
            ));
        } else {
            assert(entries_only(seq![first]) =~= seq![first]) by {
                reveal_with_fuel(Seq::filter, 2);
                assert(seq![first].drop_last() =~= Seq::empty());
            }
            let kept = entries_only(walk);
            assert(kept =~= seq![first] + entries_only(rest));
            let (chosen, others) = (looked_at(kept, look), looked_at(entries_only(rest), look));
            assert(chosen.skip(1) =~= others);
            assert(chosen[0] == items[0]);
            let item = items[0];
            let path = item.walked->Entry_0;
            if is_root(item.walked) {
                lemma_failures_have_no_say(skipped, rest, look);
            } else {
                let open = still_open(skipped, path);
                if passed_over(open, path) {
                    lemma_failures_have_no_say(open, rest, look);
                } else {
                    let (out, after) = match item.mapped {
                        Err(e) => (
                            seq![Err::<EntryModel, EntryErrorModel>(EntryErrorModel::Mapping(e))],
                            open,
                        ),
                        Ok(host) => (
                            host_group(path, host, item.streams).entries,
                            if is_reparse_dir(host) {
                                open.push(host.path)
                            } else {
                                open
                            },
                        ),
                    };
                    lemma_failures_have_no_say(after, rest, look);
                    Seq::filter_distributes_over_add(out, one_by_one(after, later), keep);
                    Seq::filter_distributes_over_add(out, one_by_one(after, others), keep);
                }
            }
        }
    }
}

/// What several threads collect in any order and then sort gives out the same as the walk of a
/// single thread in the order of paths. Where the walk has failures, wherever they stand, the two
/// agree in everything else; without failures they agree in everything.
pub proof fn law_sorted_parallel_walk_equals_single_thread(
    single: WalkerModel,
    several: WalkerModel,
    walk: Seq<WalkResult>,
    collected: Seq<WalkResult>,
    sorted: Seq<WalkResult>,
    look: spec_fn(WalkModel) -> Looked,
)
    requires
        single.threads <= 1,
        several.threads > 1,
        single.buffered == several.buffered,
        single.skipped == several.skipped,
        entries_ascend(walk),
        ranks_are_distinct(entries_only(walk)),
        collected.to_multiset() == walk.to_multiset(),
        is_stable_sort(collected, sorted),
        paths_are_kept(looked_at(walk, look)),
    ensures
        entries_only(sorted) == entries_only(walk),
        entry_outputs(driven(several, looked_at(sorted, look))) == entry_outputs(
            driven(single, looked_at(walk, look)),
        ),
        entries_only(walk) == walk ==> sorted == walk && driven(several, looked_at(sorted, look))
            == driven(single, looked_at(walk, look)),
{
    broadcast use vstd::seq_lib::group_to_multiset_ensures;

    let (kept, shuffled, back) = (
        entries_only(walk),
        entries_only(collected),
        entries_only(sorted),
    );
    law_sort_permutes(collected, sorted);
    lemma_entries_only_sorted(walk);
    law_sorted_walk_ascends(sorted);
    lemma_entries_only_sorted(sorted);
    assert forall|x: WalkResult| shuffled.to_multiset().count(x) == kept.to_multiset().count(x) by {
        lemma_entries_only_keeps(walk, x);
        lemma_entries_only_keeps(collected, x);
    }
    assert(shuffled.to_multiset() =~= kept.to_multiset());
    assert forall|x: WalkResult| #[trigger] ties(back, x) == ties(shuffled, x) by {
        lemma_entries_only_keeps(collected, x);
        lemma_entries_only_keeps(sorted, x);
        assert(ties(sorted, x) == ties(collected, x));
    }
    law_sort_undoes_permutation(kept, shuffled, back);
    let (items, others) = (looked_at(walk, look), looked_at(sorted, look));
    assert(paths_are_kept(others)) by {
        assert forall|i: int| 0 <= i < others.len() implies match (
            (#[trigger] others[i]).walked,
            others[i].mapped,
        ) {
            (WalkModel::Entry(path, _, _), Ok(host)) => host.path == path,
            _ => true,
        } by {
            assert(sorted.contains(sorted[i]));
            assert(sorted.to_multiset().contains(sorted[i]));
            assert(walk.contains(sorted[i]));
            assert(items[walk.index_of(sorted[i])] == others[i]);
        }
    }
    law_threads_do_not_matter(single, several, others);
    law_single_thread_takes_results_one_by_one(single, items);
    law_single_thread_takes_results_one_by_one(single, others);
    lemma_failures_have_no_say(single.skipped, walk, look);
    lemma_failures_have_no_say(single.skipped, sorted, look);
    let keep = |output: OutputModel| !(output matches Err(EntryErrorModel::Walk(_)));
    Seq::filter_distributes_over_add(single.buffered, one_by_one(single.skipped, items), keep);
    Seq::filter_distributes_over_add(single.buffered, one_by_one(single.skipped, others), keep);
    if kept == walk {
        assert(walk.to_multiset().len() == walk.len());
        assert(sorted.to_multiset().len() == sorted.len());
        lemma_entries_only_whole(sorted);
    }
}

/// A walk of which nothing is left out when the failures are has none.
proof fn lemma_entries_only_whole(walk: Seq<WalkResult>)
    ensures
        entries_only(walk).len() <= walk.len(),
        entries_only(walk).len() == walk.len() ==> entries_only(walk) == walk,
    decreases walk.len(),
{
    reveal(Seq::filter);
    if walk.len() > 0 {
        lemma_entries_only_whole(walk.drop_last());
        assert(walk =~= walk.drop_last().push(walk.last()));
    } else {
        assert(entries_only(walk) =~= walk);
    }
}

/// A file is given out before its streams, which stand directly behind it in the order of the
/// list, under the name of the file and that of the stream.
pub proof fn law_streams_follow_their_file(
    path: Seq<PartModel>,
    host: EntryModel,
    streams: StreamsModel,
)
    ensures
        host_group(path, host, streams).entries[0] == Ok::<EntryModel, EntryErrorModel>(host),
        host_group(path, host, streams).entries.len() == 1 + siblings(host, streams).len(),
        forall|i: int|
            0 < i < host_group(path, host, streams).entries.len() ==> match (
                #[trigger] host_group(path, host, streams).entries[i],
                host.open,
                streams,
            ) {
                (Ok(entry), Some(open), Some(list)) => {
                    &&& siblings(host, streams).len() == list.len()
                    &&& entry == stream_entry(host, open, list[i - 1].0, list[i - 1].1)
                    &&& entry.node.name == host.node.name + seq![':'] + list[i - 1].0
                    &&& entry.node.meta.size == list[i - 1].1
                },
                _ => false,
            },
{
}

/// The keys of the groups are in the order of paths.
pub open spec fn keys_ascend(groups: Seq<GroupModel>) -> bool {
    forall|i: int, j: int|
        0 <= i < j < groups.len() ==> match (
            (#[trigger] groups[i]).key,
            (#[trigger] groups[j]).key,
        ) {
            (Some(a), Some(b)) => path_order(a, b) <= 0,
            _ => true,
        }
}

/// The entries that are given out come in the order of their paths, wherever failures stand among
/// them.
pub open spec fn outputs_ascend(outputs: Seq<OutputModel>) -> bool {
    forall|i: int, j: int|
        0 <= i < j < outputs.len() ==> match (#[trigger] outputs[i], #[trigger] outputs[j]) {
            (Ok(a), Ok(b)) => path_order(a.path, b.path) <= 0,
            _ => true,
        }
}

/// The content of entries is opened at their paths.
pub open spec fn opened_at_paths(items: Seq<ItemModel>) -> bool {
    forall|i: int|
        0 <= i < items.len() ==> match (#[trigger] items[i]).mapped {
            Ok(host) => host.open matches Some(open) ==> open.parts == host.path,
            _ => true,
        }
}

/// Every entry of a group stands at the key of the group.
spec fn entries_at_key(group: GroupModel) -> bool {
    forall|i: int|
        0 <= i < group.entries.len() ==> (#[trigger] group.entries[i] matches Ok(entry)
            ==> group.key == Some(entry.path))
}

proof fn lemma_groups_in_order(skipped: Seq<Seq<PartModel>>, groups: Seq<GroupModel>)
    requires
        keys_ascend(groups),
        forall|i: int| 0 <= i < groups.len() ==> entries_at_key(#[trigger] groups[i]),
    ensures
        outputs_ascend(all_output(skipped, groups)),
        forall|k: int|
            0 <= k < all_output(skipped, groups).len() ==> (#[trigger] all_output(
                skipped,
                groups,
            )[k] matches Ok(entry) ==> exists|i: int|
                0 <= i < groups.len() && (#[trigger] groups[i]).key == Some(entry.path)),
    decreases groups.len(),
{
    if groups.len() > 0 {
        let (front, last) = (groups.drop_last(), groups.last());
        let at = groups.len() - 1;
        assert(entries_at_key(groups[at]));
        assert forall|i: int| 0 <= i < front.len() implies entries_at_key(#[trigger] front[i]) by {
            assert(front[i] == groups[i]);
        }
        assert(keys_ascend(front)) by {
            assert forall|i: int, j: int| 0 <= i < j < front.len() implies match (
                (#[trigger] front[i]).key,
                (#[trigger] front[j]).key,
            ) {
                (Some(a), Some(b)) => path_order(a, b) <= 0,
                _ => true,
            } by {
                assert(front[i] == groups[i] && front[j] == groups[j]);
            }
        }
        lemma_groups_in_order(skipped, front);
        let earlier = all_output(skipped, front);
        let added = group_output(all_skipped(skipped, front), last);
        let all = all_output(skipped, groups);
        assert(all == earlier + added);
        let n = earlier.len() as int;
        assert forall|k: int| 0 <= k < added.len() implies (#[trigger] added[k] matches Ok(entry)
            ==> last.key == Some(entry.path)) by {
            assert(added[k] == last.entries[k]);
        }
        assert forall|k: int| 0 <= k < all.len() implies (#[trigger] all[k] matches Ok(entry)
            ==> exists|i: int|
            0 <= i < groups.len() && (#[trigger] groups[i]).key == Some(entry.path)) by {
            if let Ok(entry) = all[k] {
                if k < n {
                    assert(all[k] == earlier[k]);
                    let i = choose|i: int|
                        0 <= i < front.len() && (#[trigger] front[i]).key == Some(entry.path);
                    assert(groups[i].key == Some(entry.path));
                } else {
                    assert(all[k] == added[k - n]);
                    assert(groups[at].key == Some(entry.path));
                }
            }
        }
        assert forall|i: int, j: int| 0 <= i < j < all.len() implies match (
            #[trigger] all[i],
            #[trigger] all[j],
        ) {
            (Ok(a), Ok(b)) => path_order(a.path, b.path) <= 0,
            _ => true,
        } by {
            if let (Ok(a), Ok(b)) = (all[i], all[j]) {
                if j < n {
                    assert(all[i] == earlier[i] && all[j] == earlier[j]);
                } else {
                    assert(all[j] == added[j - n]);
                    if i < n {
                        assert(all[i] == earlier[i]);
                        let g = choose|g: int|
                            0 <= g < front.len() && (#[trigger] front[g]).key == Some(a.path);
                        assert(groups[g].key == Some(a.path) && groups[at].key == Some(b.path));
                    } else {
                        assert(all[i] == added[i - n]);
                        lemma_path_order();
                        assert(lex_order(part_order())(a.path, b.path) == 0);
                    }
                }
            }
        }
    }
}

/// What a walker gives out comes in the order of paths where the results of the walk do, whatever
/// the number of threads. Streams stand at the path of their file.
pub proof fn law_outputs_come_in_the_order_of_paths(w: WalkerModel, items: Seq<ItemModel>)
    requires
        w.buffered.len() == 0,
        paths_are_kept(items),
        opened_at_paths(items),
        keys_ascend(groups_of(items)),
    ensures
        outputs_ascend(driven(w, items)),
{
    let groups = groups_of(items);
    assert forall|i: int| 0 <= i < groups.len() implies entries_at_key(#[trigger] groups[i]) by {
        assert(groups[i] == group_of(items[i]));
    }
    lemma_groups_in_order(w.skipped, groups);
    let all = all_output(w.skipped, groups);
    if w.threads <= 1 {
        law_single_thread_takes_results_one_by_one(w, items);
        lemma_one_by_one_is_each_by_itself(w.skipped, items);
    } else {
        law_threads_take_results_each_by_itself(w, items);
    }
    assert(w.buffered + all =~= all);
}

/// A walk in the order of paths, with failures anywhere, is given out in the order of paths.
pub proof fn law_ordered_walk_is_given_out_in_order(
    w: WalkerModel,
    walk: Seq<WalkResult>,
    look: spec_fn(WalkModel) -> Looked,
)
    requires
        w.buffered.len() == 0,
        entries_ascend(walk),
        paths_are_kept(looked_at(walk, look)),
        opened_at_paths(looked_at(walk, look)),
    ensures
        outputs_ascend(driven(w, looked_at(walk, look))),
{
    let items = looked_at(walk, look);
    let groups = groups_of(items);
    assert(keys_ascend(groups)) by {
        assert forall|i: int, j: int| 0 <= i < j < groups.len() implies match (
            (#[trigger] groups[i]).key,
            (#[trigger] groups[j]).key,
        ) {
            (Some(a), Some(b)) => path_order(a, b) <= 0,
            _ => true,
        } by {
            assert(groups[i] == group_of(items[i]) && groups[j] == group_of(items[j]));
            assert(items[i].walked == walk_model(walk[i]));
            assert(items[j].walked == walk_model(walk[j]));
        }
    }
    law_outputs_come_in_the_order_of_paths(w, items);
}

/// The `i`th group lies below the `j`th, and that is a reparse point.
pub open spec fn below_reparse_dir(groups: Seq<GroupModel>, i: int, j: int) -> bool {
    match (groups[i].key, groups[j].key) {
        (Some(path), Some(top)) => groups[j].is_reparse_dir && strictly_under(path, top),
        _ => false,
    }
}

/// The `i`th group is given out.
pub open spec fn given_out(groups: Seq<GroupModel>, i: int) -> bool {
    match groups[i].key {
        Some(path) => !passed_over(
            still_open(all_skipped(Seq::empty(), groups.take(i)), path),
            path,
        ),
        None => true,
    }
}

/// `top` was put on the list by the `j`th group, and the walk has not left it before the `i`th.
spec fn opened_by(groups: Seq<GroupModel>, i: int, top: Seq<PartModel>, j: int) -> bool {
    &&& 0 <= j < i
    &&& groups[j].key == Some(top)
    &&& groups[j].is_reparse_dir
    &&& given_out(groups, j)
    &&& forall|k: int|
        j < k < i ==> ((#[trigger] groups[k]).key matches Some(path) ==> begins_with(path, top))
}

proof fn lemma_still_open_contains(
    skipped: Seq<Seq<PartModel>>,
    path: Seq<PartModel>,
    top: Seq<PartModel>,
)
    ensures
        still_open(skipped, path).contains(top) <==> skipped.contains(top) && begins_with(
            path,
            top,
        ),
    decreases skipped.len(),
{
    reveal(Seq::filter);
    if skipped.len() > 0 {
        let (front, last) = (skipped.drop_last(), skipped.last());
        lemma_still_open_contains(front, path, top);
        let (before, now) = (still_open(front, path), still_open(skipped, path));
        assert(skipped.contains(top) <==> front.contains(top) || top == last) by {
            if skipped.contains(top) {
                let i = skipped.index_of(top);
                assert(i < front.len() ==> front[i] == top);
            }
            if front.contains(top) {
                assert(skipped[front.index_of(top)] == top);
            }
            assert(skipped[skipped.len() - 1] == last);
        }
        if begins_with(path, last) {
            assert(now == before.push(last));
            assert(now.contains(top) <==> before.contains(top) || top == last) by {
                if now.contains(top) {
                    let i = now.index_of(top);
                    assert(i < before.len() ==> before[i] == top);
                }
                if before.contains(top) {
                    assert(now[before.index_of(top)] == top);
                }
                assert(now[before.len() as int] == last);
            }
        } else {
            assert(now == before);
        }
    }
}

proof fn lemma_on_the_list(groups: Seq<GroupModel>, i: int, top: Seq<PartModel>)
    requires
        0 <= i <= groups.len(),
    ensures
        all_skipped(Seq::empty(), groups.take(i)).contains(top) <==> exists|j: int| #[trigger]
            opened_by(groups, i, top, j),
    decreases i,
{
    let now = all_skipped(Seq::empty(), groups.take(i));
    if i == 0 {
        assert(groups.take(0) =~= Seq::empty());
    } else {
        let h = i - 1;
        let before = all_skipped(Seq::empty(), groups.take(h));
        lemma_on_the_list(groups, h, top);
        assert(groups.take(i).drop_last() =~= groups.take(h));
        let last = groups[h];
        assert(groups.take(i).last() == last);
        match last.key {
            None => {
                if exists|j: int| #[trigger] opened_by(groups, h, top, j) {
                    let j = choose|j: int| #[trigger] opened_by(groups, h, top, j);
                    assert(opened_by(groups, i, top, j));
                }
                if exists|j: int| #[trigger] opened_by(groups, i, top, j) {
                    let j = choose|j: int| #[trigger] opened_by(groups, i, top, j);
                    assert(j != h);
                    assert(opened_by(groups, h, top, j));
                }
            },
            Some(path) => {
                let open = still_open(before, path);
                lemma_still_open_contains(before, path, top);
                if now.contains(top) {
                    if open.contains(top) {
                        let j = choose|j: int| #[trigger] opened_by(groups, h, top, j);
                        assert(opened_by(groups, i, top, j));
                    } else {
                        assert(now =~= open.push(path));
                        let k = now.index_of(top);
                        if k < open.len() {
                            assert(open[k] == top);
                            assert(open.contains(top));
                        }
                        assert(top == path);
                        assert(opened_by(groups, i, top, h));
                    }
                }
                if exists|j: int| #[trigger] opened_by(groups, i, top, j) {
                    let j = choose|j: int| #[trigger] opened_by(groups, i, top, j);
                    if j == h {
                        assert(now =~= open.push(path));
                        assert(now[open.len() as int] == top);
                    } else {
                        assert(opened_by(groups, h, top, j));
                        assert(begins_with(path, top));
                        assert(open.contains(top));
                        let k = open.index_of(top);
                        assert(now[k] == top);
                    }
                }
            },
        }
    }
}

proof fn lemma_passed_over_contains(skipped: Seq<Seq<PartModel>>, path: Seq<PartModel>)
    ensures
        passed_over(skipped, path) <==> exists|top: Seq<PartModel>| #[trigger]
            skipped.contains(top) && strictly_under(path, top),
{
    if passed_over(skipped, path) {
        let i = choose|i: int|
            0 <= i < skipped.len() && strictly_under(path, #[trigger] skipped[i]);
        assert(skipped.contains(skipped[i]));
    }
    if exists|top: Seq<PartModel>| #[trigger]
        skipped.contains(top) && strictly_under(path, top) {
        let top = choose|top: Seq<PartModel>| #[trigger]
            skipped.contains(top) && strictly_under(path, top);
        assert(skipped[skipped.index_of(top)] == top);
    }
}

/// Of a walk in the order of paths everything is given out except what lies below a reparse point
/// that is a directory, and nothing of that.
pub proof fn law_only_content_of_reparse_dirs_is_left_out(groups: Seq<GroupModel>, i: int)
    requires
        keys_ascend(groups),
        0 <= i < groups.len(),
    ensures
        given_out(groups, i) <==> forall|j: int| 0 <= j < i ==> !#[trigger] below_reparse_dir(
            groups,
            i,
            j,
        ),
        group_output(all_skipped(Seq::empty(), groups.take(i)), groups[i]) == if given_out(
            groups,
            i,
        ) {
            groups[i].entries
        } else {
            Seq::empty()
        },
    decreases i, 0nat,
{
    if let Some(path) = groups[i].key {
        let skipped = all_skipped(Seq::empty(), groups.take(i));
        let open = still_open(skipped, path);
        lemma_passed_over_contains(open, path);
        if passed_over(open, path) {
            let top = choose|top: Seq<PartModel>| #[trigger]
                open.contains(top) && strictly_under(path, top);
            lemma_still_open_contains(skipped, path, top);
            lemma_on_the_list(groups, i, top);
            let j = choose|j: int| #[trigger] opened_by(groups, i, top, j);
            assert(below_reparse_dir(groups, i, j));
        }
        if exists|j: int| 0 <= j < i && #[trigger] below_reparse_dir(groups, i, j) {
            let j = choose|j: int| 0 <= j < i && #[trigger] below_reparse_dir(groups, i, j);
            let first = lemma_topmost(groups, i, j);
            let top = groups[first].key->0;
            assert forall|k: int| first < k < i implies ((#[trigger] groups[k]).key matches Some(
                between,
            ) ==> begins_with(between, top)) by {
                if let Some(between) = groups[k].key {
                    lemma_part_order();
                    lemma_extensions_are_contiguous(part_order(), top, between, path);
                }
            }
            assert(opened_by(groups, i, top, first));
            lemma_on_the_list(groups, i, top);
            lemma_still_open_contains(skipped, path, top);
            assert(open.contains(top));
        }
    } else {
        assert forall|j: int| 0 <= j < i implies !#[trigger] below_reparse_dir(groups, i, j) by {}
    }
}

/// What lies below a reparse point lies below one that is given out.
proof fn lemma_topmost(groups: Seq<GroupModel>, i: int, j: int) -> (first: int)
    requires
        keys_ascend(groups),
        0 <= j < i < groups.len(),
        below_reparse_dir(groups, i, j),
    ensures
        0 <= first < i,
        below_reparse_dir(groups, i, first),
        given_out(groups, first),
    decreases j, 1nat,
{
    law_only_content_of_reparse_dirs_is_left_out(groups, j);
    if given_out(groups, j) {
        j
    } else {
        let l = choose|l: int| 0 <= l < j && #[trigger] below_reparse_dir(groups, j, l);
        let (path, middle, top) = (groups[i].key->0, groups[j].key->0, groups[l].key->0);
        assert(begins_with(path, top)) by {
            assert(path.take(top.len() as int) =~= middle.take(top.len() as int));
        }
        assert(path != top) by {
            if path == top {
                assert(middle.len() <= path.len() && top.len() <= middle.len());
                assert(middle =~= path.take(middle.len() as int));
                assert(path.take(middle.len() as int) =~= path);
            }
        }
        assert(below_reparse_dir(groups, i, l));
        lemma_topmost(groups, i, l)
    }
}

/// One result of a walk, what looking at it found, and the list of its streams.
pub struct Visit {
    pub result: WalkResult,
    pub info: EntryInfo,
    pub streams: Option<Vec<(AdsName, u64)>>,
}

/// The visits as a walker takes them up.
pub open spec fn visited(opts: LocalSourceSaveOptions, visits: Seq<Visit>) -> Seq<ItemModel> {
    visits.map_values(
        |v: Visit| ItemModel {
            walked: walk_model(v.result),
            mapped: mapping(opts, v.info),
            streams: stream_list(v.streams),
        },
    )
}

/// The results of the visits.
pub open spec fn results_of(visits: Seq<Visit>) -> Seq<WalkResult> {
    visits.map_values(|v: Visit| v.result)
}

/// Each entry was looked at where the walk found it.
pub open spec fn looked_at_in_place(visits: Seq<Visit>) -> bool {
    forall|i: int|
        0 <= i < visits.len() ==> match (#[trigger] visits[i]).result {
            Ok(entry) => visits[i].info.path@ == entry.path@,
            Err(_) => true,
        }
}

/// The result is a backup path, and known to be a directory.
pub open spec fn is_backup_dir(v: Visit) -> bool {
    v.result matches Ok(entry) && entry.depth == 0 && entry.is_dir == Some(true)
}

/// The entry is a directory, and Windows told that it is a reparse point and gave its data.
pub open spec fn is_told_reparse_dir(info: EntryInfo) -> bool {
    &&& info.metadata matches Ok(m) && m.is_dir
    &&& info.windows matches Some(w) && w.is_reparse_point == Some(true) && (w.reparse matches Some(
        (_, body),
    ) && body@.len() > 0)
}

/// The walker passes over what lies below an entry exactly if the entry is a directory and a reparse
/// point whose data were read. Whatever else is stored of it has no say.
pub proof fn law_only_told_reparse_dirs_are_not_entered(
    opts: LocalSourceSaveOptions,
    info: EntryInfo,
    streams: StreamsModel,
)
    requires
        mapping(opts, info) is Ok,
    ensures
        is_reparse_dir(mapping(opts, info)->Ok_0) <==> is_told_reparse_dir(info),
        host_group(info.path@, mapping(opts, info)->Ok_0, streams).is_reparse_dir
            <==> is_told_reparse_dir(info),
        forall|w: WalkerModel|
            (#[trigger] on_found(w, mapping(opts, info))).0.skipped == if is_told_reparse_dir(info) {
                w.skipped.push(info.path@)
            } else {
                w.skipped
            },
{
    reveal_strlit("windows.reparse_point");
    law_stored_attributes_are_those_told(opts, info);
    law_type_is_stored_as_found(opts, info);
    law_entries_are_opened_where_they_were_found(opts, info);
}

/// Visit `j` is one of a reparse point that is a directory and is stored, and visit `i` is one of
/// something in it: its path is longer and agrees in all the components.
pub open spec fn lies_in_reparse_dir(
    opts: LocalSourceSaveOptions,
    visits: Seq<Visit>,
    i: int,
    j: int,
) -> bool {
    match (visits[i].result, visits[j].result) {
        (Ok(inside), Ok(top)) => {
            &&& !is_backup_dir(visits[i]) && !is_backup_dir(visits[j])
            &&& mapping(opts, visits[j].info) is Ok && is_told_reparse_dir(visits[j].info)
            &&& inside.path.parts@.len() > top.path.parts@.len()
            &&& forall|c: int|
                0 <= c < top.path.parts@.len() ==> (#[trigger] inside.path.parts@[c])@
                    == top.path.parts@[c]@
        },
        _ => false,
    }
}

/// What one visit comes to: a failure of the walk, or of mapping, stands for itself; a backup path
/// that is a directory comes to nothing; and an entry is followed by its streams, if it is a file
/// with content and they could be listed.
pub open spec fn comes_to(opts: LocalSourceSaveOptions, v: Visit, out: Seq<OutputModel>) -> bool {
    match v.result {
        Err(cause) => out =~= seq![Err::<EntryModel, EntryErrorModel>(EntryErrorModel::Walk(cause@))],
        Ok(_) => if is_backup_dir(v) {
            out.len() == 0
        } else {
            match mapping(opts, v.info) {
                Err(e) => out =~= seq![
                    Err::<EntryModel, EntryErrorModel>(EntryErrorModel::Mapping(e)),
                ],
                Ok(host) => {
                    &&& out.len() > 0 && out[0] == Ok::<EntryModel, EntryErrorModel>(host)
                    &&& match (host.node.node_type, host.open, v.streams) {
                        (NodeTypeModel::File, Some(open), Some(list)) => {
                            &&& out.len() == 1 + list@.len()
                            &&& forall|k: int|
                                0 <= k < list@.len() ==> is_stream_of(
                                    host,
                                    open,
                                    (#[trigger] list@[k]).0@,
                                    list@[k].1,
                                    out[k + 1],
                                )
                        },
                        _ => out.len() == 1,
                    }
                },
            }
        },
    }
}

/// The output is the stream `name` of `size` bytes of the file `host`: it stands at the path of the
/// file, under its name, a colon and the name of the stream, and that stream of the file is opened.
pub open spec fn is_stream_of(
    host: EntryModel,
    open: OpenModel,
    name: Seq<char>,
    size: u64,
    output: OutputModel,
) -> bool {
    output matches Ok(entry) && {
        &&& entry.path == open.parts
        &&& entry.text == open.text
        &&& entry.node.name == host.node.name + seq![':'] + name
        &&& entry.node.node_type is File
        &&& entry.node.meta.size == size
        &&& entry.node.meta.mtime == host.node.meta.mtime
        &&& entry.node.meta.mode == host.node.meta.mode
        &&& entry.open matches Some(stream) && {
            &&& stream.parts == open.parts
            &&& stream.text == open.text
            &&& stream.stream == Some(name)
        }
    }
}

proof fn lemma_group_comes_to(opts: LocalSourceSaveOptions, v: Visit)
    ensures
        comes_to(
            opts,
            v,
            group_of(
                ItemModel {
                    walked: walk_model(v.result),
                    mapped: mapping(opts, v.info),
                    streams: stream_list(v.streams),
                },
            ).entries,
        ),
{
    let streams = stream_list(v.streams);
    if v.result is Ok && !is_backup_dir(v) && mapping(opts, v.info) is Ok {
        let host = mapping(opts, v.info)->Ok_0;
        let out = seq![Ok::<EntryModel, EntryErrorModel>(host)] + siblings(host, streams);
        if let (NodeTypeModel::File, Some(open), Some(list)) = (
            host.node.node_type,
            host.open,
            v.streams,
        ) {
            assert forall|k: int| 0 <= k < list@.len() implies is_stream_of(
                host,
                open,
                (#[trigger] list@[k]).0@,
                list@[k].1,
                out[k + 1],
            ) by {
                assert(out[k + 1] == siblings(host, streams)[k]);
                law_streams_have_the_metadata_of_their_file(host.node, list@[k].0@, list@[k].1);
            }
        }
    }
}

/// Over a walk in the order of paths, by one thread or several, a walker gives out what each visit
/// comes to, in the order of the walk, and leaves out those visits that lie in a reparse point that
/// is a directory, and no others. `pieces` are the parts that the visits contribute.
pub proof fn law_walk_leaves_out_only_what_lies_in_reparse_dirs(
    w: WalkerModel,
    visits: Seq<Visit>,
) -> (pieces: Seq<Seq<OutputModel>>)
    requires
        w.buffered.len() == 0,
        w.skipped.len() == 0,
        entries_ascend(results_of(visits)),
        looked_at_in_place(visits),
    ensures
        driven(w, visited(w.save_opts, visits)) == pieces.flatten(),
        pieces.len() == visits.len(),
        forall|i: int|
            0 <= i < visits.len() ==> if exists|j: int|
                0 <= j < i && lies_in_reparse_dir(w.save_opts, visits, i, j) {
                (#[trigger] pieces[i]).len() == 0
            } else {
                comes_to(w.save_opts, visits[i], pieces[i])
            },
{
    let opts = w.save_opts;
    let items = visited(opts, visits);
    let groups = groups_of(items);
    let none = Seq::<Seq<PartModel>>::empty();
    assert(w.skipped =~= none);
    assert forall|i: int| 0 <= i < groups.len() implies #[trigger] groups[i] == group_of(
        items[i],
    ) by {}
    lemma_visits_keep_paths(opts, visits);
    lemma_visit_keys(opts, visits);
    let pieces = Seq::new(
        groups.len(),
        |i: int| group_output(all_skipped(none, groups.take(i)), groups[i]),
    );
    lemma_output_is_pieces(none, groups);
    if w.threads <= 1 {
        law_single_thread_takes_results_one_by_one(w, items);
        lemma_one_by_one_is_each_by_itself(w.skipped, items);
    } else {
        law_threads_take_results_each_by_itself(w, items);
    }
    assert(w.buffered + all_output(none, groups) =~= all_output(none, groups));
    assert forall|i: int| 0 <= i < visits.len() implies if exists|j: int|
        0 <= j < i && lies_in_reparse_dir(opts, visits, i, j) {
        (#[trigger] pieces[i]).len() == 0
    } else {
        comes_to(opts, visits[i], pieces[i])
    } by {
        law_only_content_of_reparse_dirs_is_left_out(groups, i);
        lemma_group_comes_to(opts, visits[i]);
        assert(groups[i] == group_of(items[i]));
        assert forall|j: int| 0 <= j < i implies below_reparse_dir(groups, i, j)
            == lies_in_reparse_dir(opts, visits, i, j) by {
            lemma_below_is_in(opts, visits, i, j);
        }
        if exists|j: int| 0 <= j < i && lies_in_reparse_dir(opts, visits, i, j) {
            let j = choose|j: int| 0 <= j < i && lies_in_reparse_dir(opts, visits, i, j);
            assert(below_reparse_dir(groups, i, j));
        }
    }
    pieces
}

proof fn lemma_visits_keep_paths(opts: LocalSourceSaveOptions, visits: Seq<Visit>)
    requires
        looked_at_in_place(visits),
    ensures
        paths_are_kept(visited(opts, visits)),
{
    let items = visited(opts, visits);
    assert forall|i: int| 0 <= i < items.len() implies match (
        (#[trigger] items[i]).walked,
        items[i].mapped,
    ) {
        (WalkModel::Entry(path, _, _), Ok(host)) => host.path == path,
        _ => true,
    } by {
        if mapping(opts, visits[i].info) is Ok {
            law_entries_are_opened_where_they_were_found(opts, visits[i].info);
        }
    }
}

proof fn lemma_visit_keys(opts: LocalSourceSaveOptions, visits: Seq<Visit>)
    requires
        entries_ascend(results_of(visits)),
    ensures
        keys_ascend(groups_of(visited(opts, visits))),
{
    let groups = groups_of(visited(opts, visits));
    let results = results_of(visits);
    assert forall|i: int, j: int| 0 <= i < j < groups.len() implies match (
        (#[trigger] groups[i]).key,
        (#[trigger] groups[j]).key,
    ) {
        (Some(a), Some(b)) => path_order(a, b) <= 0,
        _ => true,
    } by {
        assert(groups[i] == group_of(visited(opts, visits)[i]));
        assert(groups[j] == group_of(visited(opts, visits)[j]));
        assert(results[i] == visits[i].result && results[j] == visits[j].result);
    }
}

proof fn lemma_below_is_in(opts: LocalSourceSaveOptions, visits: Seq<Visit>, i: int, j: int)
    requires
        0 <= j < i < visits.len(),
    ensures
        below_reparse_dir(groups_of(visited(opts, visits)), i, j) == lies_in_reparse_dir(
            opts,
            visits,
            i,
            j,
        ),
{
    let items = visited(opts, visits);
    let groups = groups_of(items);
    assert(groups[i] == group_of(items[i]) && groups[j] == group_of(items[j]));
    if let (Ok(inside), Ok(top)) = (visits[i].result, visits[j].result) {
        law_below_means_longer_and_agreeing(inside.path, top.path);
        if mapping(opts, visits[j].info) is Ok {
            law_only_told_reparse_dirs_are_not_entered(opts, visits[j].info, None);
        }
    }
}

proof fn lemma_output_is_pieces(skipped: Seq<Seq<PartModel>>, groups: Seq<GroupModel>)
    ensures
        all_output(skipped, groups) == Seq::new(
            groups.len(),
            |i: int| group_output(all_skipped(skipped, groups.take(i)), groups[i]),
        ).flatten(),
    decreases groups.len(),
{
    let pieces = Seq::new(
        groups.len(),
        |i: int| group_output(all_skipped(skipped, groups.take(i)), groups[i]),
    );
    if groups.len() > 0 {
        let front = groups.drop_last();
        lemma_output_is_pieces(skipped, front);
        let before = Seq::new(
            front.len(),
            |i: int| group_output(all_skipped(skipped, front.take(i)), front[i]),
        );
        assert forall|i: int| 0 <= i < front.len() implies #[trigger] pieces[i] == before[i] by {
            assert(front.take(i) =~= groups.take(i));
        }
        assert(groups.take(groups.len() - 1) =~= front);
        let last = group_output(all_skipped(skipped, front), groups.last());
        assert(pieces =~= before.push(last));
        before.lemma_flatten_push(last);
    } else {
        assert(pieces =~= Seq::empty());
    }
}

/// Where the walk has no reparse point that is a directory, every entry that can be mapped is given
/// out, with all its streams, and so is every failure: nothing is left out but the backup paths.
pub proof fn law_walk_without_reparse_dirs_gives_out_everything(
    w: WalkerModel,
    visits: Seq<Visit>,
    i: int,
)
    requires
        w.buffered.len() == 0,
        w.skipped.len() == 0,
        entries_ascend(results_of(visits)),
        looked_at_in_place(visits),
        forall|j: int| 0 <= j < visits.len() ==> !is_told_reparse_dir((#[trigger] visits[j]).info),
        0 <= i < visits.len(),
        !is_backup_dir(visits[i]),
    ensures
        match visits[i].result {
            Err(cause) => driven(w, visited(w.save_opts, visits)).contains(
                Err(EntryErrorModel::Walk(cause@)),
            ),
            Ok(_) => match mapping(w.save_opts, visits[i].info) {
                Ok(host) => driven(w, visited(w.save_opts, visits)).contains(Ok(host)),
                Err(e) => driven(w, visited(w.save_opts, visits)).contains(
                    Err(EntryErrorModel::Mapping(e)),
                ),
            },
        },
{
    let pieces = law_walk_leaves_out_only_what_lies_in_reparse_dirs(w, visits);
    assert(!exists|j: int| 0 <= j < i && lies_in_reparse_dir(w.save_opts, visits, i, j)) by {
        if exists|j: int| 0 <= j < i && lies_in_reparse_dir(w.save_opts, visits, i, j) {
            let j = choose|j: int| 0 <= j < i && lies_in_reparse_dir(w.save_opts, visits, i, j);
            assert(!is_told_reparse_dir(visits[j].info));
        }
    }
    assert(comes_to(w.save_opts, visits[i], pieces[i]));
    lemma_piece_is_in(pieces, i);
    assert(pieces[i].contains(pieces[i][0]));
}

proof fn lemma_piece_is_in(pieces: Seq<Seq<OutputModel>>, i: int)
    requires
        0 <= i < pieces.len(),
    ensures
        forall|x: OutputModel| #[trigger] pieces[i].contains(x) ==> pieces.flatten().contains(x),
    decreases pieces.len(),
{
    let (first, rest) = (pieces[0], pieces.drop_first());
    let all = pieces.flatten();
    assert(all == first + rest.flatten());
    assert forall|x: OutputModel| #[trigger] pieces[i].contains(x) implies all.contains(x) by {
        if i == 0 {
            assert(all[first.index_of(x)] == x);
        } else {
            lemma_piece_is_in(rest, i - 1);
            assert(rest[i - 1] == pieces[i]);
            assert(rest[i - 1].contains(x));
            let k = rest.flatten().index_of(x);
            assert(all[first.len() + k] == x);
        }
    }
}

} // verus!
