//! Properties of the changes reported between adjacent windows.

use vstd::prelude::*;

use crate::temporal::{
    change_at, changes_before, observed, pair_changes, reportable, window_state, ShareTrend, SemanticTemporalChangeKind,
    StructuralChange, WindowCounts,
};

verus! {

/// What holds of every reported change.
pub open spec fn sound_change(change: StructuralChange) -> bool {
    &&& reportable(change.previous_count, change.current_count)
    &&& (change.previous_count is None || change.current_count is None) ==> change.kind
        == SemanticTemporalChangeKind::MissingEvidence
    &&& (change.kind == SemanticTemporalChangeKind::Increased || change.kind
        == SemanticTemporalChangeKind::Declined) ==> observed(change.previous_count) && observed(
        change.current_count,
    )
}

proof fn lemma_pair_changes_sound(
    cluster_ids: Seq<String>,
    windows: Seq<WindowCounts>,
    trends: Seq<Vec<ShareTrend>>,
    index: int,
    upto: int,
)
    ensures
        forall|i: int|
            0 <= i < pair_changes(cluster_ids, windows, trends, index, upto).len() ==> sound_change(
                #[trigger] pair_changes(cluster_ids, windows, trends, index, upto)[i],
            ),
    decreases upto,
{
    if upto > 0 {
        lemma_pair_changes_sound(cluster_ids, windows, trends, index, upto - 1);
        let earlier = pair_changes(cluster_ids, windows, trends, index, upto - 1);
        let current = pair_changes(cluster_ids, windows, trends, index, upto);
        assert forall|i: int| 0 <= i < current.len() implies sound_change(#[trigger] current[i]) by {
            if i < earlier.len() {
                assert(current[i] == earlier[i]);
            }
        }
    }
}

/// Every change between adjacent windows that is reported was observed in at
/// least one of the two windows; a change into or out of a window without
/// items is missing evidence rather than an observed zero; and a change is
/// called an increase or a decline only when both windows observed it.
pub proof fn law_reported_changes_are_grounded(
    cluster_ids: Seq<String>,
    windows: Seq<WindowCounts>,
    trends: Seq<Vec<ShareTrend>>,
    upto: int,
)
    ensures
        forall|i: int|
            0 <= i < changes_before(cluster_ids, windows, trends, upto).len() ==> sound_change(
                #[trigger] changes_before(cluster_ids, windows, trends, upto)[i],
            ),
    decreases upto,
{
    if upto > 1 {
        law_reported_changes_are_grounded(cluster_ids, windows, trends, upto - 1);
        lemma_pair_changes_sound(cluster_ids, windows, trends, upto - 1, cluster_ids.len() as int);
        let earlier = changes_before(cluster_ids, windows, trends, upto - 1);
        let added = pair_changes(cluster_ids, windows, trends, upto - 1, cluster_ids.len() as int);
        let all = changes_before(cluster_ids, windows, trends, upto);
        assert forall|i: int| 0 <= i < all.len() implies sound_change(#[trigger] all[i]) by {
            if i < earlier.len() {
                assert(all[i] == earlier[i]);
            } else {
                assert(all[i] == added[i - earlier.len()]);
            }
        }
    }
}

/// Either window of the pair ending at window `index` observed cluster `c`.
pub open spec fn reported_pair(
    cluster_ids: Seq<String>,
    windows: Seq<WindowCounts>,
    index: int,
    c: int,
) -> bool {
    reportable(
        window_state(windows[index - 1], cluster_ids[c]@),
        window_state(windows[index], cluster_ids[c]@),
    )
}

/// No two entries of `ids` have the same text.
pub open spec fn distinct_ids(ids: Seq<String>) -> bool {
    forall|a: int, b: int| #![trigger ids[a], ids[b]] 0 <= a < b < ids.len() ==> ids[a]@ != ids[b]@
}

/// No two windows have the same id.
pub open spec fn distinct_windows(windows: Seq<WindowCounts>) -> bool {
    forall|a: int, b: int|
        #![trigger windows[a], windows[b]]
        0 <= a < b < windows.len() ==> windows[a].id@ != windows[b].id@
}

/// `change` is reported from window `from` to window `to` for `cluster`.
pub open spec fn names_pair(change: StructuralChange, from: WindowCounts, to: WindowCounts, cluster: String) -> bool {
    &&& change.from_window_id@ == from.id@
    &&& change.to_window_id@ == to.id@
    &&& change.cluster_id@ == cluster@
}

#[verifier::spinoff_prover]
proof fn lemma_pair_changes_named_sound(
    cluster_ids: Seq<String>,
    windows: Seq<WindowCounts>,
    trends: Seq<Vec<ShareTrend>>,
    index: int,
    upto: int,
)
    requires
        1 <= index < windows.len(),
        0 <= upto <= cluster_ids.len(),
    ensures
        forall|k: int|
            #![trigger pair_changes(cluster_ids, windows, trends, index, upto)[k]]
            0 <= k < pair_changes(cluster_ids, windows, trends, index, upto).len() ==> exists|c: int|
                0 <= c < upto && reported_pair(cluster_ids, windows, index, c) && names_pair(
                    pair_changes(cluster_ids, windows, trends, index, upto)[k],
                    windows[index - 1],
                    windows[index],
                    #[trigger] cluster_ids[c],
                ),
    decreases upto,
{
    if upto > 0 {
        lemma_pair_changes_named_sound(cluster_ids, windows, trends, index, upto - 1);
        let earlier = pair_changes(cluster_ids, windows, trends, index, upto - 1);
        let current = pair_changes(cluster_ids, windows, trends, index, upto);
        let last = upto - 1;
        let from = windows[index - 1];
        let to = windows[index];
        assert forall|k: int| #![trigger current[k]] 0 <= k < current.len() implies exists|c: int|
            0 <= c < upto && reported_pair(cluster_ids, windows, index, c) && names_pair(
                current[k],
                from,
                to,
                #[trigger] cluster_ids[c],
            ) by {
            if k < earlier.len() {
                assert(current[k] == earlier[k]);
                let c = choose|c: int|
                    0 <= c < upto - 1 && reported_pair(cluster_ids, windows, index, c) && names_pair(
                        earlier[k],
                        from,
                        to,
                        #[trigger] cluster_ids[c],
                    );
                assert(names_pair(current[k], from, to, cluster_ids[c]));
            } else {
                assert(current == earlier.push(change_at(cluster_ids, windows, trends, index, last)));
                assert(names_pair(current[k], from, to, cluster_ids[last]));
            }
        }
    }
}

#[verifier::spinoff_prover]
proof fn lemma_pair_changes_complete(
    cluster_ids: Seq<String>,
    windows: Seq<WindowCounts>,
    trends: Seq<Vec<ShareTrend>>,
    index: int,
    upto: int,
)
    requires
        1 <= index < windows.len(),
        0 <= upto <= cluster_ids.len(),
    ensures
        forall|c: int|
            #![trigger cluster_ids[c]]
            0 <= c < upto && reported_pair(cluster_ids, windows, index, c) ==> exists|k: int|
                0 <= k < pair_changes(cluster_ids, windows, trends, index, upto).len() && names_pair(
                    #[trigger] pair_changes(cluster_ids, windows, trends, index, upto)[k],
                    windows[index - 1],
                    windows[index],
                    cluster_ids[c],
                ),
    decreases upto,
{
    if upto > 0 {
        lemma_pair_changes_complete(cluster_ids, windows, trends, index, upto - 1);
        let earlier = pair_changes(cluster_ids, windows, trends, index, upto - 1);
        let current = pair_changes(cluster_ids, windows, trends, index, upto);
        let last = upto - 1;
        let from = windows[index - 1];
        let to = windows[index];
        assert forall|c: int|
            #![trigger cluster_ids[c]]
            0 <= c < upto && reported_pair(cluster_ids, windows, index, c) implies exists|k: int|
            0 <= k < current.len() && names_pair(#[trigger] current[k], from, to, cluster_ids[c]) by {
            if c < last {
                let k = choose|k: int|
                    0 <= k < earlier.len() && names_pair(#[trigger] earlier[k], from, to, cluster_ids[c]);
                assert(current[k] == earlier[k]);
            } else {
                assert(current == earlier.push(change_at(cluster_ids, windows, trends, index, last)));
                assert(names_pair(current[earlier.len() as int], from, to, cluster_ids[c]));
            }
        }
    }
}

#[verifier::spinoff_prover]
proof fn lemma_pair_changes_distinct(
    cluster_ids: Seq<String>,
    windows: Seq<WindowCounts>,
    trends: Seq<Vec<ShareTrend>>,
    index: int,
    upto: int,
)
    requires
        1 <= index < windows.len(),
        0 <= upto <= cluster_ids.len(),
        distinct_ids(cluster_ids),
    ensures
        forall|k1: int, k2: int|
            #![trigger pair_changes(cluster_ids, windows, trends, index, upto)[k1], pair_changes(cluster_ids, windows, trends, index, upto)[k2]]
            0 <= k1 < k2 < pair_changes(cluster_ids, windows, trends, index, upto).len() ==> pair_changes(
                cluster_ids,
                windows,
                trends,
                index,
                upto,
            )[k1].cluster_id@ != pair_changes(cluster_ids, windows, trends, index, upto)[k2].cluster_id@,
    decreases upto,
{
    if upto > 0 {
        lemma_pair_changes_distinct(cluster_ids, windows, trends, index, upto - 1);
        lemma_pair_changes_named_sound(cluster_ids, windows, trends, index, upto - 1);
        let earlier = pair_changes(cluster_ids, windows, trends, index, upto - 1);
        let current = pair_changes(cluster_ids, windows, trends, index, upto);
        let last = upto - 1;
        let from = windows[index - 1];
        let to = windows[index];
        assert forall|k1: int, k2: int|
            #![trigger current[k1], current[k2]]
            0 <= k1 < k2 < current.len() implies current[k1].cluster_id@ != current[k2].cluster_id@ by {
            if k2 < earlier.len() {
                assert(current[k1] == earlier[k1] && current[k2] == earlier[k2]);
            } else {
                assert(current == earlier.push(change_at(cluster_ids, windows, trends, index, last)));
                assert(current[k1] == earlier[k1]);
                let c = choose|c: int|
                    0 <= c < upto - 1 && reported_pair(cluster_ids, windows, index, c) && names_pair(
                        earlier[k1],
                        from,
                        to,
                        #[trigger] cluster_ids[c],
                    );
                assert(cluster_ids[c]@ != cluster_ids[last]@);
            }
        }
    }
}

/// Every change reported into the first `upto` windows names a pair of
/// adjacent windows and a cluster that one of the two windows observed
/// (with `upto` the number of windows: every reported change).
#[verifier::spinoff_prover]
#[verifier::rlimit(40)]
pub proof fn law_reports_name_observed_concepts(
    cluster_ids: Seq<String>,
    windows: Seq<WindowCounts>,
    trends: Seq<Vec<ShareTrend>>,
    upto: int,
)
    requires
        0 <= upto <= windows.len(),
    ensures
        forall|k: int|
            #![trigger changes_before(cluster_ids, windows, trends, upto)[k]]
            0 <= k < changes_before(cluster_ids, windows, trends, upto).len() ==> exists|i: int, c: int|
                1 <= i < upto && 0 <= c < cluster_ids.len() && reported_pair(cluster_ids, windows, i, c)
                    && names_pair(
                    changes_before(cluster_ids, windows, trends, upto)[k],
                    windows[i - 1],
                    #[trigger] windows[i],
                    #[trigger] cluster_ids[c],
                ),
    decreases upto,
{
    if upto > 1 {
        law_reports_name_observed_concepts(cluster_ids, windows, trends, upto - 1);
        let n = cluster_ids.len() as int;
        let last = upto - 1;
        lemma_pair_changes_named_sound(cluster_ids, windows, trends, last, n);
        let earlier = changes_before(cluster_ids, windows, trends, last);
        let added = pair_changes(cluster_ids, windows, trends, last, n);
        let all = changes_before(cluster_ids, windows, trends, upto);
        assert(all == earlier + added);
        assert forall|k: int| #![trigger all[k]] 0 <= k < all.len() implies exists|i: int, c: int|
            1 <= i < upto && 0 <= c < cluster_ids.len() && reported_pair(cluster_ids, windows, i, c)
                && names_pair(all[k], windows[i - 1], #[trigger] windows[i], #[trigger] cluster_ids[c]) by {
            if k < earlier.len() {
                assert(all[k] == earlier[k]);
                let (i, c) = choose|i: int, c: int|
                    1 <= i < last && 0 <= c < cluster_ids.len() && reported_pair(cluster_ids, windows, i, c)
                        && names_pair(
                        earlier[k],
                        windows[i - 1],
                        #[trigger] windows[i],
                        #[trigger] cluster_ids[c],
                    );
                assert(names_pair(all[k], windows[i - 1], windows[i], cluster_ids[c]));
            } else {
                let j = k - earlier.len();
                assert(all[k] == added[j]);
                let c = choose|c: int|
                    0 <= c < n && reported_pair(cluster_ids, windows, last, c) && names_pair(
                        added[j],
                        windows[last - 1],
                        windows[last],
                        #[trigger] cluster_ids[c],
                    );
                assert(names_pair(all[k], windows[last - 1], windows[last], cluster_ids[c]));
            }
        }
    }
}

/// Every concept that either window of an adjacent pair among the first
/// `upto` windows observed is reported for that pair.
#[verifier::spinoff_prover]
#[verifier::rlimit(40)]
pub proof fn law_observed_concepts_are_reported(
    cluster_ids: Seq<String>,
    windows: Seq<WindowCounts>,
    trends: Seq<Vec<ShareTrend>>,
    upto: int,
)
    requires
        0 <= upto <= windows.len(),
    ensures
        forall|i: int, c: int|
            #![trigger windows[i], cluster_ids[c]]
            1 <= i < upto && 0 <= c < cluster_ids.len() && reported_pair(cluster_ids, windows, i, c)
                ==> exists|k: int|
                0 <= k < changes_before(cluster_ids, windows, trends, upto).len() && names_pair(
                    #[trigger] changes_before(cluster_ids, windows, trends, upto)[k],
                    windows[i - 1],
                    windows[i],
                    cluster_ids[c],
                ),
    decreases upto,
{
    if upto > 1 {
        law_observed_concepts_are_reported(cluster_ids, windows, trends, upto - 1);
        let n = cluster_ids.len() as int;
        let last = upto - 1;
        lemma_pair_changes_complete(cluster_ids, windows, trends, last, n);
        let earlier = changes_before(cluster_ids, windows, trends, last);
        let added = pair_changes(cluster_ids, windows, trends, last, n);
        let all = changes_before(cluster_ids, windows, trends, upto);
        assert(all == earlier + added);
        assert forall|i: int, c: int|
            #![trigger windows[i], cluster_ids[c]]
            1 <= i < upto && 0 <= c < cluster_ids.len() && reported_pair(cluster_ids, windows, i, c)
                implies exists|k: int|
            0 <= k < all.len() && names_pair(#[trigger] all[k], windows[i - 1], windows[i], cluster_ids[c]) by {
            if i < last {
                let k = choose|k: int|
                    0 <= k < earlier.len() && names_pair(
                        #[trigger] earlier[k],
                        windows[i - 1],
                        windows[i],
                        cluster_ids[c],
                    );
                assert(all[k] == earlier[k]);
            } else {
                let k = choose|k: int|
                    0 <= k < added.len() && names_pair(
                        #[trigger] added[k],
                        windows[last - 1],
                        windows[last],
                        cluster_ids[c],
                    );
                assert(all[k + earlier.len()] == added[k]);
            }
        }
    }
}

/// When window ids and cluster ids are distinct, each adjacent pair and
/// cluster is reported at most once: no two changes reported into the first
/// `upto` windows name the same target window and cluster.
#[verifier::spinoff_prover]
#[verifier::rlimit(40)]
pub proof fn law_concepts_are_reported_once(
    cluster_ids: Seq<String>,
    windows: Seq<WindowCounts>,
    trends: Seq<Vec<ShareTrend>>,
    upto: int,
)
    requires
        0 <= upto <= windows.len(),
        distinct_ids(cluster_ids),
        distinct_windows(windows),
    ensures
        forall|k1: int, k2: int|
            #![trigger changes_before(cluster_ids, windows, trends, upto)[k1], changes_before(cluster_ids, windows, trends, upto)[k2]]
            0 <= k1 < k2 < changes_before(cluster_ids, windows, trends, upto).len() ==> changes_before(
                cluster_ids,
                windows,
                trends,
                upto,
            )[k1].to_window_id@ != changes_before(cluster_ids, windows, trends, upto)[k2].to_window_id@
                || changes_before(cluster_ids, windows, trends, upto)[k1].cluster_id@
                != changes_before(cluster_ids, windows, trends, upto)[k2].cluster_id@,
    decreases upto,
{
    if upto > 1 {
        law_concepts_are_reported_once(cluster_ids, windows, trends, upto - 1);
        law_reports_name_observed_concepts(cluster_ids, windows, trends, upto - 1);
        let n = cluster_ids.len() as int;
        let last = upto - 1;
        lemma_pair_changes_named_sound(cluster_ids, windows, trends, last, n);
        lemma_pair_changes_distinct(cluster_ids, windows, trends, last, n);
        let earlier = changes_before(cluster_ids, windows, trends, last);
        let added = pair_changes(cluster_ids, windows, trends, last, n);
        let all = changes_before(cluster_ids, windows, trends, upto);
        assert(all == earlier + added);
        assert forall|k1: int, k2: int|
            #![trigger all[k1], all[k2]]
            0 <= k1 < k2 < all.len() implies all[k1].to_window_id@ != all[k2].to_window_id@
                || all[k1].cluster_id@ != all[k2].cluster_id@ by {
            if k2 < earlier.len() {
                assert(all[k1] == earlier[k1] && all[k2] == earlier[k2]);
            } else if k1 >= earlier.len() {
                assert(all[k1] == added[k1 - earlier.len()]);
                assert(all[k2] == added[k2 - earlier.len()]);
            } else {
                assert(all[k1] == earlier[k1]);
                let j = k2 - earlier.len();
                assert(all[k2] == added[j]);
                let (i, c) = choose|i: int, c: int|
                    1 <= i < last && 0 <= c < cluster_ids.len() && reported_pair(cluster_ids, windows, i, c)
                        && names_pair(
                        earlier[k1],
                        windows[i - 1],
                        #[trigger] windows[i],
                        #[trigger] cluster_ids[c],
                    );
                let d = choose|d: int|
                    0 <= d < n && reported_pair(cluster_ids, windows, last, d) && names_pair(
                        added[j],
                        windows[last - 1],
                        windows[last],
                        #[trigger] cluster_ids[d],
                    );
                assert(windows[i].id@ != windows[last].id@);
            }
        }
    }
}

} // verus!
