//! Caller-defined ordered corpus windows and the structural classification of
//! changes between adjacent windows.

use vstd::prelude::*;
use vstd::string::StringExecFns;

use crate::chars::same_text;
use crate::corpus::SemanticCorpusSource;
use crate::model::{ClusterAssignment, ClusterMembership};
use crate::order::{insert_sorted, strictly_sorted, views_of};
use crate::senses::{copy_occurrence, SemanticWordOccurrence, SemanticWordSense};
use crate::whitespace::{is_blank, is_blank_str};

verus! {

/// One caller-defined ordered corpus window.
///
/// Window membership is explicit: the semantic core does not infer calendar buckets.
#[derive(Debug, Clone, Copy)]
pub struct SemanticCorpusTemporalWindow<'a> {
    pub id: &'a str,
    pub item_ids: &'a [&'a str],
}

impl<'a> SemanticCorpusTemporalWindow<'a> {
    /// Creates a window over the given item ids.
    pub fn new(id: &'a str, item_ids: &'a [&'a str]) -> (window: Self)
        ensures
            window.id == id,
            window.item_ids == item_ids,
    {
        SemanticCorpusTemporalWindow { id, item_ids }
    }
}

/// Exact structural classification of one adjacent-window distribution change.
#[derive(Debug, Clone, Copy, PartialEq, Eq, PartialOrd, Ord)]
pub enum SemanticTemporalChangeKind {
    Emerging,
    Persisting,
    Increased,
    Declined,
    Disappeared,
    Reentered,
    MissingEvidence,
}

/// How the share of a concept in the current window compares with the previous window.
#[derive(Debug, Clone, Copy, PartialEq, Eq)]
pub enum ShareTrend {
    /// The current share is larger.
    Higher,
    /// The current share is smaller.
    Lower,
    /// Neither share is larger than the other.
    Level,
}

/// Why a set of temporal windows was refused.
#[derive(Debug, Clone, PartialEq, Eq)]
pub enum TemporalWindowError<'a> {
    /// Fewer than two windows were supplied.
    TooFewWindows,
    /// A window id is empty or white space.
    EmptyWindowId,
    /// A window id occurs twice.
    DuplicateWindowId(&'a str),
    /// A window lists the same item twice.
    DuplicateItem { window: &'a str, item: &'a str },
    /// A window lists an item that is not in the corpus.
    UnknownItem { window: &'a str, item: &'a str },
    /// These corpus items (sorted, each once) belong to no window.
    UncoveredItems(Vec<String>),
}

/// The views of a list of string slices.
pub open spec fn str_views(values: Seq<&str>) -> Seq<Seq<char>> {
    values.map_values(|value: &str| value@)
}

/// The ids of the corpus sources.
pub open spec fn source_ids(sources: Seq<SemanticCorpusSource>) -> Seq<Seq<char>> {
    sources.map_values(|source: SemanticCorpusSource| source.id@)
}

/// The ids of the windows.
pub open spec fn window_ids(windows: Seq<SemanticCorpusTemporalWindow>) -> Seq<Seq<char>> {
    windows.map_values(|window: SemanticCorpusTemporalWindow| window.id@)
}

/// First problem among the items of `window` from position `index` on.
pub open spec fn window_item_problem<'a>(
    known: Seq<Seq<char>>,
    window: SemanticCorpusTemporalWindow<'a>,
    index: int,
) -> Option<TemporalWindowError<'a>>
    decreases window.item_ids@.len() - index,
{
    if index < 0 || index >= window.item_ids@.len() {
        None
    } else {
        let item = window.item_ids@[index];
        if str_views(window.item_ids@).subrange(0, index).contains(item@) {
            Some(TemporalWindowError::DuplicateItem { window: window.id, item })
        } else if !known.contains(item@) {
            Some(TemporalWindowError::UnknownItem { window: window.id, item })
        } else {
            window_item_problem(known, window, index + 1)
        }
    }
}

/// First problem among the windows from position `index` on.
pub open spec fn window_problem<'a>(
    known: Seq<Seq<char>>,
    windows: Seq<SemanticCorpusTemporalWindow<'a>>,
    index: int,
) -> Option<TemporalWindowError<'a>>
    decreases windows.len() - index,
{
    if index < 0 || index >= windows.len() {
        None
    } else {
        let window = windows[index];
        if is_blank(window.id@) {
            Some(TemporalWindowError::EmptyWindowId)
        } else if window_ids(windows).subrange(0, index).contains(window.id@) {
            Some(TemporalWindowError::DuplicateWindowId(window.id))
        } else {
            match window_item_problem(known, window, 0) {
                Some(problem) => Some(problem),
                None => window_problem(known, windows, index + 1),
            }
        }
    }
}

/// Some window lists the item `id`.
pub open spec fn is_covered(windows: Seq<SemanticCorpusTemporalWindow>, id: Seq<char>) -> bool {
    exists|w: int, i: int|
        0 <= w < windows.len() && 0 <= i < windows[w].item_ids@.len() && (
        #[trigger] windows[w].item_ids@[i])@ == id
}

/// Whether an adjacent-window change is worth reporting: the concept was
/// observed in at least one of the two windows.
pub open spec fn reportable(previous: Option<usize>, current: Option<usize>) -> bool {
    (previous matches Some(count) && count > 0) || (current matches Some(count) && count > 0)
}

/// The classification of a change from `previous_count` to `current_count`.
pub open spec fn change_kind(
    previous_count: Option<usize>,
    current_count: Option<usize>,
    share_trend: Option<ShareTrend>,
    prior_presence: bool,
    prior_missing: bool,
) -> SemanticTemporalChangeKind {
    match (previous_count, current_count) {
        (Some(previous), Some(current)) => if previous == 0 && current == 0 {
            SemanticTemporalChangeKind::Persisting
        } else if previous == 0 && prior_presence {
            SemanticTemporalChangeKind::Reentered
        } else if previous == 0 && prior_missing {
            SemanticTemporalChangeKind::MissingEvidence
        } else if previous == 0 {
            SemanticTemporalChangeKind::Emerging
        } else if current == 0 {
            SemanticTemporalChangeKind::Disappeared
        } else {
            match share_trend {
                Some(ShareTrend::Higher) => SemanticTemporalChangeKind::Increased,
                Some(ShareTrend::Lower) => SemanticTemporalChangeKind::Declined,
                _ => SemanticTemporalChangeKind::Persisting,
            }
        },
        _ => SemanticTemporalChangeKind::MissingEvidence,
    }
}

/// Whether a change between adjacent windows is reported: true when either
/// window observed the concept at least once.
pub fn should_report_change(previous: Option<usize>, current: Option<usize>) -> (report: bool)
    ensures
        report == reportable(previous, current),
{
    let observed_before = match previous {
        Some(count) => count > 0,
        None => false,
    };
    let observed_now = match current {
        Some(count) => count > 0,
        None => false,
    };
    observed_before || observed_now
}

/// Classifies one adjacent-window change. A window without items gives no
/// count (`None`), which is missing evidence rather than an observed zero.
pub fn classify_change(
    previous_count: Option<usize>,
    current_count: Option<usize>,
    share_trend: Option<ShareTrend>,
    prior_presence: bool,
    prior_missing: bool,
) -> (kind: SemanticTemporalChangeKind)
    requires
        (previous_count matches Some(p) && current_count matches Some(c) && p > 0 && c > 0)
            ==> share_trend is Some,
    ensures
        kind == change_kind(
            previous_count,
            current_count,
            share_trend,
            prior_presence,
            prior_missing,
        ),
{
    let (previous, current) = match (previous_count, current_count) {
        (Some(previous), Some(current)) => (previous, current),
        _ => return SemanticTemporalChangeKind::MissingEvidence,
    };
    if previous == 0 && current == 0 {
        SemanticTemporalChangeKind::Persisting
    } else if previous == 0 && prior_presence {
        SemanticTemporalChangeKind::Reentered
    } else if previous == 0 && prior_missing {
        SemanticTemporalChangeKind::MissingEvidence
    } else if previous == 0 {
        SemanticTemporalChangeKind::Emerging
    } else if current == 0 {
        SemanticTemporalChangeKind::Disappeared
    } else {
        match share_trend {
            Some(ShareTrend::Higher) => SemanticTemporalChangeKind::Increased,
            Some(ShareTrend::Lower) => SemanticTemporalChangeKind::Declined,
            _ => SemanticTemporalChangeKind::Persisting,
        }
    }
}


fn is_known(sources: &[SemanticCorpusSource], id: &str) -> (known: bool)
    ensures
        known == source_ids(sources@).contains(id@),
{
    let mut index: usize = 0;
    while index < sources.len()
        invariant
            index <= sources@.len(),
            forall|i: int| 0 <= i < index ==> sources@[i].id@ != id@,
        decreases sources@.len() - index,
    {
        if same_text(sources[index].id.as_str(), id) {
            proof {
                assert(source_ids(sources@)[index as int] == id@);
            }
            return true;
        }
        index = index + 1;
    }
    proof {
        if source_ids(sources@).contains(id@) {
            let i = choose|i: int|
                0 <= i < source_ids(sources@).len() && source_ids(sources@)[i] == id@;
            assert(sources@[i].id@ == id@);
        }
    }
    false
}

fn listed_in(windows: &[SemanticCorpusTemporalWindow], id: &str) -> (listed: bool)
    ensures
        listed == is_covered(windows@, id@),
{
    let mut w: usize = 0;
    while w < windows.len()
        invariant
            w <= windows@.len(),
            forall|a: int, b: int|
                0 <= a < w && 0 <= b < windows@[a].item_ids@.len() ==> (
                #[trigger] windows@[a].item_ids@[b])@ != id@,
        decreases windows@.len() - w,
    {
        let items = windows[w].item_ids;
        let mut i: usize = 0;
        while i < items.len()
            invariant
                w < windows@.len(),
                items == windows@[w as int].item_ids,
                i <= items@.len(),
                forall|a: int, b: int|
                    0 <= a < w && 0 <= b < windows@[a].item_ids@.len() ==> (
                    #[trigger] windows@[a].item_ids@[b])@ != id@,
                forall|b: int| 0 <= b < i ==> (#[trigger] items@[b])@ != id@,
            decreases items@.len() - i,
        {
            if same_text(items[i], id) {
                return true;
            }
            i = i + 1;
        }
        w = w + 1;
    }
    false
}

/// Checks caller-defined windows against the corpus sources: at least two
/// windows, non-blank unique window ids, no item listed twice in one window,
/// only corpus items, and every corpus item in some window.
pub fn validate_windows<'a>(
    sources: &[SemanticCorpusSource],
    windows: &[SemanticCorpusTemporalWindow<'a>],
) -> (result: Result<(), TemporalWindowError<'a>>)
    ensures
        windows@.len() < 2 ==> result == Err::<(), TemporalWindowError<'a>>(
            TemporalWindowError::TooFewWindows,
        ),
        windows@.len() >= 2 ==> match window_problem(source_ids(sources@), windows@, 0) {
            Some(problem) => result == Err::<(), TemporalWindowError<'a>>(problem),
            None => match result {
                Ok(()) => forall|i: int|
                    0 <= i < sources@.len() ==> is_covered(windows@, #[trigger] sources@[i].id@),
                Err(TemporalWindowError::UncoveredItems(missing)) => {
                    &&& missing@.len() > 0
                    &&& strictly_sorted(views_of(missing@))
                    &&& forall|x: Seq<char>|
                        #![trigger views_of(missing@).contains(x)]
                        views_of(missing@).contains(x) <==> source_ids(sources@).contains(x)
                            && !is_covered(windows@, x)
                },
                Err(_) => false,
            },
        },
        windows@.len() >= 2 && window_problem(source_ids(sources@), windows@, 0) is None ==> (
        result is Ok <==> forall|i: int|
            0 <= i < sources@.len() ==> is_covered(windows@, #[trigger] sources@[i].id@)),
{
    if windows.len() < 2 {
        return Err(TemporalWindowError::TooFewWindows);
    }
    let ghost known = source_ids(sources@);
    let mut index: usize = 0;
    while index < windows.len()
        invariant
            index <= windows@.len(),
            windows@.len() >= 2,
            known == source_ids(sources@),
            window_problem(known, windows@, 0) == window_problem(known, windows@, index as int),
        decreases windows@.len() - index,
    {
        let window = windows[index];
        if is_blank_str(window.id) {
            return Err(TemporalWindowError::EmptyWindowId);
        }
        let mut earlier: usize = 0;
        while earlier < index
            invariant
                index < windows@.len(),
                earlier <= index,
                window == windows@[index as int],
                forall|j: int| 0 <= j < earlier ==> windows@[j].id@ != window.id@,
                windows@.len() >= 2,
                known == source_ids(sources@),
                window_problem(known, windows@, 0) == window_problem(known, windows@, index as int),
                !is_blank(window.id@),
            decreases index - earlier,
        {
            if same_text(windows[earlier].id, window.id) {
                proof {
                    assert(window_ids(windows@).subrange(0, index as int)[earlier as int]
                        == window.id@);
                }
                return Err(TemporalWindowError::DuplicateWindowId(window.id));
            }
            earlier = earlier + 1;
        }
        proof {
            if window_ids(windows@).subrange(0, index as int).contains(window.id@) {
                let j = choose|j: int|
                    0 <= j < index && window_ids(windows@).subrange(0, index as int)[j]
                        == window.id@;
                assert(windows@[j].id@ == window.id@);
            }
        }
        let items = window.item_ids;
        let mut position: usize = 0;
        while position < items.len()
            invariant
                index < windows@.len(),
                window == windows@[index as int],
                items == window.item_ids,
                position <= items@.len(),
                known == source_ids(sources@),
                windows@.len() >= 2,
                window_problem(known, windows@, 0) == match window_item_problem(
                    known,
                    window,
                    position as int,
                ) {
                    Some(problem) => Some(problem),
                    None => window_problem(known, windows@, index + 1),
                },
            decreases items@.len() - position,
        {
            let item = items[position];
            let mut earlier_item: usize = 0;
            while earlier_item < position
                invariant
                    position < items@.len(),
                    item == items@[position as int],
                    earlier_item <= position,
                    forall|j: int| 0 <= j < earlier_item ==> items@[j]@ != item@,
                    known == source_ids(sources@),
                    windows@.len() >= 2,
                    window == windows@[index as int],
                    items == window.item_ids,
                    window_problem(known, windows@, 0) == match window_item_problem(
                        known,
                        window,
                        position as int,
                    ) {
                        Some(problem) => Some(problem),
                        None => window_problem(known, windows@, index + 1),
                    },
                decreases position - earlier_item,
            {
                if same_text(items[earlier_item], item) {
                    proof {
                        assert(str_views(items@).subrange(0, position as int)[earlier_item as int]
                            == item@);
                    }
                    return Err(TemporalWindowError::DuplicateItem { window: window.id, item });
                }
                earlier_item = earlier_item + 1;
            }
            proof {
                if str_views(items@).subrange(0, position as int).contains(item@) {
                    let j = choose|j: int|
                        0 <= j < position && str_views(items@).subrange(0, position as int)[j]
                            == item@;
                    assert(items@[j]@ == item@);
                }
            }
            if !is_known(sources, item) {
                return Err(TemporalWindowError::UnknownItem { window: window.id, item });
            }
            position = position + 1;
        }
        index = index + 1;
    }
    let mut missing: Vec<String> = Vec::new();
    proof {
        assert(views_of(missing@) =~= Seq::<Seq<char>>::empty());
    }
    let mut source_index: usize = 0;
    while source_index < sources.len()
        invariant
            source_index <= sources@.len(),
            window_problem(known, windows@, 0) is None,
            known == source_ids(sources@),
            strictly_sorted(views_of(missing@)),
            forall|x: Seq<char>|
                #![trigger views_of(missing@).contains(x)]
                views_of(missing@).contains(x) <==> source_ids(sources@).subrange(
                    0,
                    source_index as int,
                ).contains(x) && !is_covered(windows@, x),
        decreases sources@.len() - source_index,
    {
        let id = sources[source_index].id.as_str();
        let ghost ids_before = source_ids(sources@).subrange(0, source_index as int);
        let ghost ids_after = source_ids(sources@).subrange(0, source_index + 1);
        proof {
            assert(ids_after =~= ids_before.push(id@));
        }
        let ghost missing_before = views_of(missing@);
        let listed = listed_in(windows, id);
        if !listed {
            insert_sorted(&mut missing, String::from_str(id));
        }
        proof {
            assert forall|x: Seq<char>|
                #![trigger views_of(missing@).contains(x)]
                views_of(missing@).contains(x) <==> ids_after.contains(x) && !is_covered(
                    windows@,
                    x,
                ) by {
                if ids_after.contains(x) && x != id@ {
                    let k = choose|k: int| 0 <= k < ids_after.len() && ids_after[k] == x;
                    assert(ids_before[k] == x);
                }
                if ids_before.contains(x) {
                    let k = choose|k: int| 0 <= k < ids_before.len() && ids_before[k] == x;
                    assert(ids_after[k] == x);
                }
                assert(ids_after[source_index as int] == id@);
                assert(missing_before.contains(x) ==> views_of(missing@).contains(x));
            }
        }
        source_index = source_index + 1;
    }
    proof {
        assert(source_ids(sources@).subrange(0, sources@.len() as int) =~= source_ids(sources@));
    }
    if missing.len() > 0 {
        proof {
            let x = views_of(missing@)[0];
            assert(views_of(missing@).contains(x));
            let k = choose|k: int|
                0 <= k < source_ids(sources@).len() && source_ids(sources@)[k] == x;
            assert(sources@[k].id@ == x);
            assert(!is_covered(windows@, sources@[k].id@));
        }
        return Err(TemporalWindowError::UncoveredItems(missing));
    }
    proof {
        assert forall|i: int|
            0 <= i < sources@.len() implies is_covered(windows@, #[trigger] sources@[i].id@) by {
            assert(source_ids(sources@)[i] == sources@[i].id@);
            if !is_covered(windows@, sources@[i].id@) {
                assert(views_of(missing@).contains(sources@[i].id@));
            }
        }
    }
    Ok(())
}

/// The texts joined with `", "` between neighbours.
pub open spec fn joined(texts: Seq<Seq<char>>) -> Seq<char>
    decreases texts.len(),
{
    if texts.len() == 0 {
        Seq::empty()
    } else if texts.len() == 1 {
        texts[0]
    } else {
        joined(texts.drop_last()) + ", "@ + texts.last()
    }
}

/// The text that describes a window problem, as characters.
pub open spec fn window_error_text(error: TemporalWindowError) -> Seq<char> {
    match error {
        TemporalWindowError::TooFewWindows =>
            "semantic temporal analysis requires at least two windows"@,
        TemporalWindowError::EmptyWindowId => "semantic temporal window id must not be empty"@,
        TemporalWindowError::DuplicateWindowId(id) => "duplicate semantic temporal window id `"@
            + id@ + "`"@,
        TemporalWindowError::DuplicateItem { window, item } => "semantic temporal window `"@
            + window@ + "` contains duplicate item id `"@ + item@ + "`"@,
        TemporalWindowError::UnknownItem { window, item } => "semantic temporal window `"@
            + window@ + "` references unknown item id `"@ + item@ + "`"@,
        TemporalWindowError::UncoveredItems(missing) =>
            "semantic temporal windows must cover every corpus item; missing: "@ + joined(
                views_of(missing@),
            ),
    }
}

impl<'a> TemporalWindowError<'a> {
    /// A sentence that describes the problem.
    pub fn message(&self) -> (text: String)
        ensures
            text@ == window_error_text(*self),
    {
        match self {
            TemporalWindowError::TooFewWindows => String::from_str(
                "semantic temporal analysis requires at least two windows",
            ),
            TemporalWindowError::EmptyWindowId => String::from_str(
                "semantic temporal window id must not be empty",
            ),
            TemporalWindowError::DuplicateWindowId(id) => {
                let mut text = String::from_str("duplicate semantic temporal window id `");
                text.append(id);
                text.append("`");
                text
            },
            TemporalWindowError::DuplicateItem { window, item } => {
                let mut text = String::from_str("semantic temporal window `");
                text.append(window);
                text.append("` contains duplicate item id `");
                text.append(item);
                text.append("`");
                text
            },
            TemporalWindowError::UnknownItem { window, item } => {
                let mut text = String::from_str("semantic temporal window `");
                text.append(window);
                text.append("` references unknown item id `");
                text.append(item);
                text.append("`");
                text
            },
            TemporalWindowError::UncoveredItems(missing) => {
                let mut text = String::from_str(
                    "semantic temporal windows must cover every corpus item; missing: ",
                );
                let ghost head = text@;
                let mut index: usize = 0;
                while index < missing.len()
                    invariant
                        index <= missing@.len(),
                        text@ == head + joined(views_of(missing@.take(index as int))),
                    decreases missing@.len() - index,
                {
                    proof {
                        assert(views_of(missing@.take(index + 1)).drop_last() =~= views_of(
                            missing@.take(index as int),
                        ));
                    }
                    if index > 0 {
                        text.append(", ");
                    }
                    text.append(missing[index].as_str());
                    index = index + 1;
                }
                proof {
                    assert(missing@.take(index as int) =~= missing@);
                }
                text
            },
        }
    }
}

/// The number of units of one concept observed in a window.
#[derive(Debug, Clone, PartialEq, Eq)]
pub struct ConceptCount {
    pub cluster_id: String,
    pub count: usize,
}

/// What change classification reads of one window: its id, its number of
/// corpus items, and the concepts observed in it.
#[derive(Debug, Clone, PartialEq, Eq)]
pub struct WindowCounts {
    pub id: String,
    pub item_count: usize,
    pub concepts: Vec<ConceptCount>,
}

/// One reported change of a concept between adjacent windows.
#[derive(Debug, Clone, PartialEq, Eq)]
pub struct StructuralChange {
    pub from_window_id: String,
    pub to_window_id: String,
    pub cluster_id: String,
    pub kind: SemanticTemporalChangeKind,
    pub previous_count: Option<usize>,
    pub current_count: Option<usize>,
}

/// The count recorded for `cluster_id` (the first entry naming it), or zero.
pub open spec fn count_in(concepts: Seq<ConceptCount>, cluster_id: Seq<char>) -> usize
    decreases concepts.len(),
{
    if concepts.len() == 0 {
        0
    } else if concepts[0].cluster_id@ == cluster_id {
        concepts[0].count
    } else {
        count_in(concepts.drop_first(), cluster_id)
    }
}

/// The count of `cluster_id` in `window`; a window without items has none.
pub open spec fn window_state(window: WindowCounts, cluster_id: Seq<char>) -> Option<usize> {
    if window.item_count == 0 {
        None
    } else {
        Some(count_in(window.concepts@, cluster_id))
    }
}

/// A window state that observed the concept at least once.
pub open spec fn observed(state: Option<usize>) -> bool {
    state matches Some(count) && count > 0
}

/// Some window before position `before` observed `cluster_id`.
pub open spec fn seen_before(windows: Seq<WindowCounts>, before: int, cluster_id: Seq<char>) -> bool {
    exists|w: int| 0 <= w < before && observed(#[trigger] window_state(windows[w], cluster_id))
}

/// Some window before position `before` has no items.
pub open spec fn empty_before(windows: Seq<WindowCounts>, before: int) -> bool {
    exists|w: int| 0 <= w < before && (#[trigger] windows[w]).item_count == 0
}

/// The change of cluster `c` from window `index - 1` to window `index`.
pub open spec fn change_at(
    cluster_ids: Seq<String>,
    windows: Seq<WindowCounts>,
    trends: Seq<Vec<ShareTrend>>,
    index: int,
    c: int,
) -> StructuralChange {
    let id = cluster_ids[c];
    let previous = window_state(windows[index - 1], id@);
    let current = window_state(windows[index], id@);
    StructuralChange {
        from_window_id: windows[index - 1].id,
        to_window_id: windows[index].id,
        cluster_id: id,
        kind: change_kind(
            previous,
            current,
            Some(trends[index - 1]@[c]),
            seen_before(windows, index - 1, id@),
            empty_before(windows, index - 1),
        ),
        previous_count: previous,
        current_count: current,
    }
}

/// Reported changes into window `index` for the first `upto` clusters.
pub open spec fn pair_changes(
    cluster_ids: Seq<String>,
    windows: Seq<WindowCounts>,
    trends: Seq<Vec<ShareTrend>>,
    index: int,
    upto: int,
) -> Seq<StructuralChange>
    decreases upto,
{
    if upto <= 0 {
        Seq::empty()
    } else {
        let earlier = pair_changes(cluster_ids, windows, trends, index, upto - 1);
        let id = cluster_ids[upto - 1];
        if reportable(window_state(windows[index - 1], id@), window_state(windows[index], id@)) {
            earlier.push(change_at(cluster_ids, windows, trends, index, upto - 1))
        } else {
            earlier
        }
    }
}

/// Reported changes into the windows before position `upto`, window by window.
pub open spec fn changes_before(
    cluster_ids: Seq<String>,
    windows: Seq<WindowCounts>,
    trends: Seq<Vec<ShareTrend>>,
    upto: int,
) -> Seq<StructuralChange>
    decreases upto,
{
    if upto <= 1 {
        Seq::empty()
    } else {
        changes_before(cluster_ids, windows, trends, upto - 1) + pair_changes(
            cluster_ids,
            windows,
            trends,
            upto - 1,
            cluster_ids.len() as int,
        )
    }
}

fn count_for(concepts: &[ConceptCount], cluster_id: &str) -> (count: usize)
    ensures
        count == count_in(concepts@, cluster_id@),
{
    let mut index: usize = 0;
    proof {
        assert(concepts@.skip(0) =~= concepts@);
    }
    while index < concepts.len()
        invariant
            index <= concepts@.len(),
            count_in(concepts@, cluster_id@) == count_in(concepts@.skip(index as int), cluster_id@),
        decreases concepts@.len() - index,
    {
        proof {
            assert(concepts@.skip(index as int).drop_first() =~= concepts@.skip(index + 1));
        }
        if same_text(concepts[index].cluster_id.as_str(), cluster_id) {
            return concepts[index].count;
        }
        index = index + 1;
    }
    0
}

fn state_of(window: &WindowCounts, cluster_id: &str) -> (state: Option<usize>)
    ensures
        state == window_state(*window, cluster_id@),
{
    if window.item_count == 0 {
        None
    } else {
        Some(count_for(window.concepts.as_slice(), cluster_id))
    }
}

fn observed_before(windows: &[WindowCounts], before: usize, cluster_id: &str) -> (seen: bool)
    requires
        before <= windows@.len(),
    ensures
        seen == seen_before(windows@, before as int, cluster_id@),
{
    let mut w: usize = 0;
    while w < before
        invariant
            before <= windows@.len(),
            w <= before,
            forall|v: int| 0 <= v < w ==> !observed(#[trigger] window_state(windows@[v], cluster_id@)),
        decreases before - w,
    {
        match state_of(&windows[w], cluster_id) {
            Some(count) => {
                if count > 0 {
                    return true;
                }
            },
            None => {},
        }
        w = w + 1;
    }
    false
}

fn missing_before(windows: &[WindowCounts], before: usize) -> (missing: bool)
    requires
        before <= windows@.len(),
    ensures
        missing == empty_before(windows@, before as int),
{
    let mut w: usize = 0;
    while w < before
        invariant
            before <= windows@.len(),
            w <= before,
            forall|v: int| 0 <= v < w ==> (#[trigger] windows@[v]).item_count != 0,
        decreases before - w,
    {
        if windows[w].item_count == 0 {
            return true;
        }
        w = w + 1;
    }
    false
}

/// The reported changes between every pair of adjacent windows, window by
/// window and, within a pair, in the order of `cluster_ids`. A change is
/// reported when either window observed the concept; `trends[i][c]` compares
/// the shares of cluster `c` in windows `i` and `i + 1`.
pub fn structural_changes(
    cluster_ids: &[String],
    windows: &[WindowCounts],
    trends: &[Vec<ShareTrend>],
) -> (changes: Vec<StructuralChange>)
    requires
        windows@.len() == 0 || trends@.len() + 1 == windows@.len(),
        forall|i: int| 0 <= i < trends@.len() ==> (#[trigger] trends@[i])@.len() == cluster_ids@.len(),
    ensures
        changes@ == changes_before(cluster_ids@, windows@, trends@, windows@.len() as int),
{
    let mut changes: Vec<StructuralChange> = Vec::new();
    if windows.len() < 2 {
        return changes;
    }
    let mut index: usize = 1;
    while index < windows.len()
        invariant
            1 <= index <= windows@.len(),
            trends@.len() + 1 == windows@.len(),
            forall|i: int| 0 <= i < trends@.len() ==> (#[trigger] trends@[i])@.len() == cluster_ids@.len(),
            changes@ == changes_before(cluster_ids@, windows@, trends@, index as int),
        decreases windows@.len() - index,
    {
        let ghost before = changes@;
        let previous = &windows[index - 1];
        let current = &windows[index];
        let present = index - 1;
        let mut c: usize = 0;
        while c < cluster_ids.len()
            invariant
                1 <= index < windows@.len(),
                present == index - 1,
                previous == windows@[index - 1],
                current == windows@[index as int],
                trends@.len() + 1 == windows@.len(),
                trends@[present as int]@.len() == cluster_ids@.len(),
                c <= cluster_ids@.len(),
                changes@ == before + pair_changes(cluster_ids@, windows@, trends@, index as int, c as int),
            decreases cluster_ids@.len() - c,
        {
            let id = cluster_ids[c].as_str();
            let previous_state = state_of(previous, id);
            let current_state = state_of(current, id);
            if should_report_change(previous_state, current_state) {
                let seen = observed_before(windows, present, id);
                let missing = missing_before(windows, present);
                let trend = trends[present][c];
                let kind = classify_change(previous_state, current_state, Some(trend), seen, missing);
                changes.push(
                    StructuralChange {
                        from_window_id: previous.id.clone(),
                        to_window_id: current.id.clone(),
                        cluster_id: cluster_ids[c].clone(),
                        kind,
                        previous_count: previous_state,
                        current_count: current_state,
                    },
                );
                proof {
                    assert(changes@ =~= before + pair_changes(cluster_ids@, windows@, trends@, index as int, c + 1));
                }
            } else {
                proof {
                    assert(changes@ =~= before + pair_changes(cluster_ids@, windows@, trends@, index as int, c + 1));
                }
            }
            c = c + 1;
        }
        index = index + 1;
    }
    changes
}

/// One unit of the corpus analysis: its id, the item it came from, and its
/// position in the corpus.
#[derive(Debug, Clone, PartialEq, Eq)]
pub struct CorpusUnit {
    pub id: String,
    pub source_id: String,
    pub sequence_index: usize,
}

/// One concept observed in a window: how many of the window's units it holds,
/// and the earliest of its member units that comes from the window.
#[derive(Debug, Clone, PartialEq, Eq)]
pub struct WindowConcept {
    pub cluster_id: String,
    pub unit_count: usize,
    pub evidence: CorpusUnit,
}

/// The unit recorded under `id`; when several are, the last of them.
pub open spec fn unit_for(units: Seq<CorpusUnit>, id: Seq<char>) -> Option<CorpusUnit>
    decreases units.len(),
{
    if units.len() == 0 {
        None
    } else if units.last().id@ == id {
        Some(units.last())
    } else {
        unit_for(units.drop_last(), id)
    }
}

/// The unit recorded under `id`, when it comes from one of the window's items.
pub open spec fn window_unit(units: Seq<CorpusUnit>, items: Seq<&str>, id: Seq<char>) -> Option<CorpusUnit> {
    match unit_for(units, id) {
        Some(unit) => if str_views(items).contains(unit.source_id@) {
            Some(unit)
        } else {
            None
        },
        None => None,
    }
}

/// Number of timeline assignments to `cluster_id` of units from the window.
pub open spec fn window_count(
    timeline: Seq<ClusterAssignment>,
    units: Seq<CorpusUnit>,
    items: Seq<&str>,
    cluster_id: Seq<char>,
) -> nat
    decreases timeline.len(),
{
    if timeline.len() == 0 {
        0
    } else {
        window_count(timeline.drop_last(), units, items, cluster_id) + if timeline.last().cluster_id@
            == cluster_id && window_unit(units, items, timeline.last().unit_id@) is Some {
            1nat
        } else {
            0nat
        }
    }
}

/// Number of timeline assignments of units from the window, whatever their cluster.
pub open spec fn window_total(timeline: Seq<ClusterAssignment>, units: Seq<CorpusUnit>, items: Seq<&str>) -> nat
    decreases timeline.len(),
{
    if timeline.len() == 0 {
        0
    } else {
        window_total(timeline.drop_last(), units, items) + if window_unit(
            units,
            items,
            timeline.last().unit_id@,
        ) is Some {
            1nat
        } else {
            0nat
        }
    }
}

/// The earliest member unit from the window (the first of them on a tie).
pub open spec fn earliest_member(units: Seq<CorpusUnit>, items: Seq<&str>, members: Seq<String>) -> Option<
    CorpusUnit,
>
    decreases members.len(),
{
    if members.len() == 0 {
        None
    } else {
        let earlier = earliest_member(units, items, members.drop_last());
        match window_unit(units, items, members.last()@) {
            None => earlier,
            Some(unit) => match earlier {
                None => Some(unit),
                Some(best) => if unit.sequence_index < best.sequence_index {
                    Some(unit)
                } else {
                    Some(best)
                },
            },
        }
    }
}

/// The concepts of the clusters that the window observed, in cluster order.
pub open spec fn window_concepts_of(
    timeline: Seq<ClusterAssignment>,
    units: Seq<CorpusUnit>,
    items: Seq<&str>,
    clusters: Seq<ClusterMembership>,
) -> Seq<(Seq<char>, nat, CorpusUnit)>
    decreases clusters.len(),
{
    if clusters.len() == 0 {
        Seq::empty()
    } else {
        let earlier = window_concepts_of(timeline, units, items, clusters.drop_last());
        let cluster = clusters.last();
        let count = window_count(timeline, units, items, cluster.id@);
        match earliest_member(units, items, cluster.member_unit_ids@) {
            Some(evidence) => if count > 0 {
                earlier.push((cluster.id@, count, evidence))
            } else {
                earlier
            },
            None => earlier,
        }
    }
}

/// The cluster, count and evidence of each window concept.
pub open spec fn concept_triples(concepts: Seq<WindowConcept>) -> Seq<(Seq<char>, nat, CorpusUnit)> {
    concepts.map_values(
        |concept: WindowConcept| (concept.cluster_id@, concept.unit_count as nat, concept.evidence),
    )
}

fn copy_unit(unit: &CorpusUnit) -> (copy: CorpusUnit)
    ensures
        copy == *unit,
{
    CorpusUnit {
        id: unit.id.clone(),
        source_id: unit.source_id.clone(),
        sequence_index: unit.sequence_index,
    }
}

fn listed_item(items: &[&str], id: &str) -> (listed: bool)
    ensures
        listed == str_views(items@).contains(id@),
{
    let mut index: usize = 0;
    while index < items.len()
        invariant
            index <= items@.len(),
            forall|i: int| 0 <= i < index ==> items@[i]@ != id@,
        decreases items@.len() - index,
    {
        if same_text(items[index], id) {
            proof {
                assert(str_views(items@)[index as int] == id@);
            }
            return true;
        }
        index = index + 1;
    }
    proof {
        if str_views(items@).contains(id@) {
            let i = choose|i: int| 0 <= i < str_views(items@).len() && str_views(items@)[i] == id@;
            assert(items@[i]@ == id@);
        }
    }
    false
}

fn find_window_unit(units: &[CorpusUnit], items: &[&str], id: &str) -> (found: Option<usize>)
    ensures
        match found {
            Some(k) => k < units@.len() && window_unit(units@, items@, id@) == Some(
                units@[k as int],
            ),
            None => window_unit(units@, items@, id@) is None,
        },
{
    let mut found: Option<usize> = None;
    let mut index: usize = 0;
    while index < units.len()
        invariant
            index <= units@.len(),
            match found {
                Some(k) => k < index && unit_for(units@.take(index as int), id@) == Some(
                    units@[k as int],
                ),
                None => unit_for(units@.take(index as int), id@) is None,
            },
        decreases units@.len() - index,
    {
        proof {
            assert(units@.take(index + 1).drop_last() =~= units@.take(index as int));
        }
        if same_text(units[index].id.as_str(), id) {
            found = Some(index);
        }
        index = index + 1;
    }
    proof {
        assert(units@.take(index as int) =~= units@);
    }
    match found {
        Some(k) => if listed_item(items, units[k].source_id.as_str()) {
            Some(k)
        } else {
            None
        },
        None => None,
    }
}

/// The window's count of `cluster_id`, and its count over all clusters.
fn count_in_window(
    timeline: &[ClusterAssignment],
    units: &[CorpusUnit],
    items: &[&str],
    cluster_id: &str,
) -> (counts: (usize, usize))
    ensures
        counts.0 == window_count(timeline@, units@, items@, cluster_id@),
        counts.1 == window_total(timeline@, units@, items@),
{
    let mut count: usize = 0;
    let mut total: usize = 0;
    let mut index: usize = 0;
    while index < timeline.len()
        invariant
            index <= timeline@.len(),
            count == window_count(timeline@.take(index as int), units@, items@, cluster_id@),
            total == window_total(timeline@.take(index as int), units@, items@),
            count <= index,
            total <= index,
        decreases timeline@.len() - index,
    {
        proof {
            assert(timeline@.take(index + 1).drop_last() =~= timeline@.take(index as int));
        }
        let point = &timeline[index];
        if find_window_unit(units, items, point.unit_id.as_str()).is_some() {
            total = total + 1;
            if same_text(point.cluster_id.as_str(), cluster_id) {
                count = count + 1;
            }
        }
        index = index + 1;
    }
    proof {
        assert(timeline@.take(index as int) =~= timeline@);
    }
    (count, total)
}

fn earliest_in_window(units: &[CorpusUnit], items: &[&str], members: &Vec<String>) -> (earliest:
    Option<usize>)
    ensures
        match earliest {
            Some(k) => k < units@.len() && earliest_member(units@, items@, members@) == Some(
                units@[k as int],
            ),
            None => earliest_member(units@, items@, members@) is None,
        },
{
    let mut best: Option<usize> = None;
    let mut index: usize = 0;
    while index < members.len()
        invariant
            index <= members@.len(),
            match best {
                Some(k) => k < units@.len() && earliest_member(
                    units@,
                    items@,
                    members@.take(index as int),
                ) == Some(units@[k as int]),
                None => earliest_member(units@, items@, members@.take(index as int)) is None,
            },
        decreases members@.len() - index,
    {
        proof {
            assert(members@.take(index + 1).drop_last() =~= members@.take(index as int));
        }
        match find_window_unit(units, items, members[index].as_str()) {
            Some(k) => {
                best = match best {
                    None => Some(k),
                    Some(current) => if units[k].sequence_index < units[current].sequence_index {
                        Some(k)
                    } else {
                        Some(current)
                    },
                };
            },
            None => {},
        }
        index = index + 1;
    }
    proof {
        assert(members@.take(index as int) =~= members@);
    }
    best
}

/// The concepts a window observed: for each cluster, in cluster order, the
/// number of timeline assignments to it of units from the window's items and
/// the earliest of its member units from those items, when both exist; and
/// the number of timeline assignments of the window's units over all clusters.
pub fn window_concepts(
    timeline: &[ClusterAssignment],
    units: &[CorpusUnit],
    items: &[&str],
    clusters: &[ClusterMembership],
) -> (result: (Vec<WindowConcept>, usize))
    ensures
        concept_triples(result.0@) == window_concepts_of(timeline@, units@, items@, clusters@),
        result.1 == window_total(timeline@, units@, items@),
{
    let mut concepts: Vec<WindowConcept> = Vec::new();
    let mut index: usize = 0;
    let (_, everything) = count_in_window(timeline, units, items, "");
    while index < clusters.len()
        invariant
            index <= clusters@.len(),
            everything == window_total(timeline@, units@, items@),
            concept_triples(concepts@) == window_concepts_of(
                timeline@,
                units@,
                items@,
                clusters@.take(index as int),
            ),
        decreases clusters@.len() - index,
    {
        proof {
            assert(clusters@.take(index + 1).drop_last() =~= clusters@.take(index as int));
        }
        let cluster = &clusters[index];
        let (count, _) = count_in_window(timeline, units, items, cluster.id.as_str());
        match earliest_in_window(units, items, &cluster.member_unit_ids) {
            Some(k) => {
                if count > 0 {
                    let ghost before = concepts@;
                    concepts.push(
                        WindowConcept {
                            cluster_id: cluster.id.clone(),
                            unit_count: count,
                            evidence: copy_unit(&units[k]),
                        },
                    );
                    proof {
                        assert(concept_triples(concepts@) =~= concept_triples(before).push(
                            (cluster.id@, count as nat, units@[k as int]),
                        ));
                    }
                }
            },
            None => {},
        }
        index = index + 1;
    }
    proof {
        assert(clusters@.take(index as int) =~= clusters@);
    }
    (concepts, everything)
}

/// The counts that change classification reads of a window with `item_count`
/// items and the given concepts.
pub fn window_counts(id: &str, item_count: usize, concepts: &[WindowConcept]) -> (counts: WindowCounts)
    ensures
        counts.id@ == id@,
        counts.item_count == item_count,
        counts.concepts@.len() == concepts@.len(),
        forall|i: int|
            0 <= i < concepts@.len() ==> (#[trigger] counts.concepts@[i]).cluster_id@
                == concepts@[i].cluster_id@ && counts.concepts@[i].count == concepts@[i].unit_count,
{
    let mut entries: Vec<ConceptCount> = Vec::new();
    let mut index: usize = 0;
    while index < concepts.len()
        invariant
            index <= concepts@.len(),
            entries@.len() == index,
            forall|i: int|
                0 <= i < index ==> (#[trigger] entries@[i]).cluster_id@ == concepts@[i].cluster_id@
                    && entries@[i].count == concepts@[i].unit_count,
        decreases concepts@.len() - index,
    {
        entries.push(
            ConceptCount { cluster_id: concepts[index].cluster_id.clone(), count: concepts[index].unit_count },
        );
        index = index + 1;
    }
    WindowCounts { id: String::from_str(id), item_count, concepts: entries }
}

/// What one window observed of the corpus analysis: its counts for change
/// classification, its concepts, and the number of its units' timeline
/// assignments over all clusters.
#[derive(Debug, Clone, PartialEq, Eq)]
pub struct WindowObservation {
    pub counts: WindowCounts,
    pub concepts: Vec<WindowConcept>,
    pub unit_total: usize,
}

/// `observation` is what `window` observed of the timeline, units and clusters.
pub open spec fn is_observation_of(
    timeline: Seq<ClusterAssignment>,
    units: Seq<CorpusUnit>,
    clusters: Seq<ClusterMembership>,
    window: SemanticCorpusTemporalWindow,
    observation: WindowObservation,
) -> bool {
    &&& observation.counts.id@ == window.id@
    &&& observation.counts.item_count == window.item_ids@.len()
    &&& concept_triples(observation.concepts@) == window_concepts_of(
        timeline,
        units,
        window.item_ids@,
        clusters,
    )
    &&& observation.unit_total == window_total(timeline, units, window.item_ids@)
    &&& observation.counts.concepts@.len() == observation.concepts@.len()
    &&& forall|j: int|
        0 <= j < observation.concepts@.len() ==> (#[trigger] observation.counts.concepts@[j]).cluster_id@
            == observation.concepts@[j].cluster_id@ && observation.counts.concepts@[j].count
            == observation.concepts@[j].unit_count
}

/// Checks the windows against the corpus sources as `validate_windows` does
/// and, when they pass, observes each window in order: its id and item count,
/// the concepts its items' units hold, and its units' assignments overall.
pub fn observe_windows<'a>(
    sources: &[SemanticCorpusSource],
    windows: &[SemanticCorpusTemporalWindow<'a>],
    timeline: &[ClusterAssignment],
    units: &[CorpusUnit],
    clusters: &[ClusterMembership],
) -> (result: Result<Vec<WindowObservation>, TemporalWindowError<'a>>)
    ensures
        windows@.len() < 2 ==> result == Err::<Vec<WindowObservation>, TemporalWindowError<'a>>(
            TemporalWindowError::TooFewWindows,
        ),
        windows@.len() >= 2 ==> (window_problem(source_ids(sources@), windows@, 0) matches Some(
            problem,
        ) ==> result == Err::<Vec<WindowObservation>, TemporalWindowError<'a>>(problem)),
        windows@.len() >= 2 && window_problem(source_ids(sources@), windows@, 0) is None ==> {
            &&& result is Ok <==> forall|i: int|
                0 <= i < sources@.len() ==> is_covered(windows@, #[trigger] sources@[i].id@)
            &&& match result {
                Ok(_) => true,
                Err(TemporalWindowError::UncoveredItems(missing)) => {
                    &&& missing@.len() > 0
                    &&& strictly_sorted(views_of(missing@))
                    &&& forall|x: Seq<char>|
                        #![trigger views_of(missing@).contains(x)]
                        views_of(missing@).contains(x) <==> source_ids(sources@).contains(x)
                            && !is_covered(windows@, x)
                },
                Err(_) => false,
            }
        },
        result matches Ok(observations) ==> observations@.len() == windows@.len() && forall|i: int|
            0 <= i < windows@.len() ==> is_observation_of(
                timeline@,
                units@,
                clusters@,
                windows@[i],
                #[trigger] observations@[i],
            ),
{
    match validate_windows(sources, windows) {
        Err(error) => {
            return Err(error);
        },
        Ok(()) => {},
    }
    let mut observations: Vec<WindowObservation> = Vec::new();
    let mut index: usize = 0;
    while index < windows.len()
        invariant
            index <= windows@.len(),
            observations@.len() == index,
            forall|i: int|
                0 <= i < index ==> is_observation_of(
                    timeline@,
                    units@,
                    clusters@,
                    windows@[i],
                    #[trigger] observations@[i],
                ),
        decreases windows@.len() - index,
    {
        let window = windows[index];
        let (concepts, unit_total) = window_concepts(timeline, units, window.item_ids, clusters);
        let counts = window_counts(window.id, window.item_ids.len(), concepts.as_slice());
        let ghost before = observations@;
        observations.push(WindowObservation { counts, concepts, unit_total });
        proof {
            assert forall|i: int|
                0 <= i < index + 1 implies is_observation_of(
                timeline@,
                units@,
                clusters@,
                windows@[i],
                #[trigger] observations@[i],
            ) by {
                if i < index {
                    assert(observations@[i] == before[i]);
                }
            }
        }
        index = index + 1;
    }
    Ok(observations)
}

/// One sense of the target word as a window observed it.
#[derive(Debug, Clone, PartialEq, Eq)]
pub struct WindowSense {
    pub cluster_id: String,
    pub occurrence_count: usize,
    pub evidence: SemanticWordOccurrence,
}

/// Number of the occurrences that come from the window's items.
pub open spec fn window_occurrences(occurrences: Seq<SemanticWordOccurrence>, items: Seq<&str>) -> nat
    decreases occurrences.len(),
{
    if occurrences.len() == 0 {
        0
    } else {
        window_occurrences(occurrences.drop_last(), items) + if str_views(items).contains(
            occurrences.last().source_id@,
        ) {
            1nat
        } else {
            0nat
        }
    }
}

/// The first of the occurrences that comes from the window's items.
pub open spec fn first_window_occurrence(occurrences: Seq<SemanticWordOccurrence>, items: Seq<&str>) -> Option<
    SemanticWordOccurrence,
>
    decreases occurrences.len(),
{
    if occurrences.len() == 0 {
        None
    } else {
        match first_window_occurrence(occurrences.drop_last(), items) {
            Some(first) => Some(first),
            None => if str_views(items).contains(occurrences.last().source_id@) {
                Some(occurrences.last())
            } else {
                None
            },
        }
    }
}

/// The senses that the window observed, in sense order: each with the number
/// of its occurrences from the window's items and the first of them.
pub open spec fn window_senses_of(senses: Seq<SemanticWordSense>, items: Seq<&str>) -> Seq<
    (Seq<char>, nat, SemanticWordOccurrence),
>
    decreases senses.len(),
{
    if senses.len() == 0 {
        Seq::empty()
    } else {
        let earlier = window_senses_of(senses.drop_last(), items);
        let sense = senses.last();
        let count = window_occurrences(sense.occurrences@, items);
        match first_window_occurrence(sense.occurrences@, items) {
            Some(evidence) => if count > 0 {
                earlier.push((sense.cluster_id@, count, evidence))
            } else {
                earlier
            },
            None => earlier,
        }
    }
}

/// Number of occurrences from the window's items, over all senses.
pub open spec fn window_sense_total(senses: Seq<SemanticWordSense>, items: Seq<&str>) -> nat
    decreases senses.len(),
{
    if senses.len() == 0 {
        0
    } else {
        window_sense_total(senses.drop_last(), items) + window_occurrences(senses.last().occurrences@, items)
    }
}

/// Number of occurrences over all senses.
pub open spec fn occurrence_total(senses: Seq<SemanticWordSense>) -> nat
    decreases senses.len(),
{
    if senses.len() == 0 {
        0
    } else {
        occurrence_total(senses.drop_last()) + senses.last().occurrences@.len()
    }
}

/// The cluster, count and evidence of each window sense.
pub open spec fn sense_triples(senses: Seq<WindowSense>) -> Seq<(Seq<char>, nat, SemanticWordOccurrence)> {
    senses.map_values(
        |sense: WindowSense| (sense.cluster_id@, sense.occurrence_count as nat, sense.evidence),
    )
}

proof fn lemma_window_occurrences_bounded(occurrences: Seq<SemanticWordOccurrence>, items: Seq<&str>)
    ensures
        window_occurrences(occurrences, items) <= occurrences.len(),
    decreases occurrences.len(),
{
    if occurrences.len() > 0 {
        lemma_window_occurrences_bounded(occurrences.drop_last(), items);
    }
}

proof fn lemma_window_sense_total_bounded(senses: Seq<SemanticWordSense>, items: Seq<&str>)
    ensures
        window_sense_total(senses, items) <= occurrence_total(senses),
    decreases senses.len(),
{
    if senses.len() > 0 {
        lemma_window_sense_total_bounded(senses.drop_last(), items);
        lemma_window_occurrences_bounded(senses.last().occurrences@, items);
    }
}

proof fn lemma_occurrence_total_prefix(senses: Seq<SemanticWordSense>, count: int)
    requires
        0 <= count <= senses.len(),
    ensures
        occurrence_total(senses.take(count)) <= occurrence_total(senses),
    decreases senses.len(),
{
    if count == senses.len() {
        assert(senses.take(count) =~= senses);
    } else {
        lemma_occurrence_total_prefix(senses.drop_last(), count);
        assert(senses.drop_last().take(count) =~= senses.take(count));
    }
}

/// How many of the occurrences come from the window's items, and the first of them.
fn occurrences_in_window(occurrences: &Vec<SemanticWordOccurrence>, items: &[&str]) -> (found: (
    usize,
    Option<usize>,
))
    ensures
        found.0 == window_occurrences(occurrences@, items@),
        match found.1 {
            Some(k) => k < occurrences@.len() && first_window_occurrence(occurrences@, items@) == Some(
                occurrences@[k as int],
            ),
            None => first_window_occurrence(occurrences@, items@) is None,
        },
{
    let mut count: usize = 0;
    let mut first: Option<usize> = None;
    let mut index: usize = 0;
    while index < occurrences.len()
        invariant
            index <= occurrences@.len(),
            count <= index,
            count == window_occurrences(occurrences@.take(index as int), items@),
            match first {
                Some(k) => k < index && first_window_occurrence(occurrences@.take(index as int), items@)
                    == Some(occurrences@[k as int]),
                None => first_window_occurrence(occurrences@.take(index as int), items@) is None,
            },
        decreases occurrences@.len() - index,
    {
        proof {
            assert(occurrences@.take(index + 1).drop_last() =~= occurrences@.take(index as int));
        }
        if listed_item(items, occurrences[index].source_id.as_str()) {
            count = count + 1;
            if first.is_none() {
                first = Some(index);
            }
        }
        index = index + 1;
    }
    proof {
        assert(occurrences@.take(index as int) =~= occurrences@);
    }
    (count, first)
}

/// The senses of the target word that a window observed: for each sense, in
/// sense order, the number of its occurrences from the window's items and the
/// first of them, when there is one; and the number of such occurrences over
/// all senses.
pub fn window_senses(senses: &[SemanticWordSense], items: &[&str]) -> (result: (Vec<WindowSense>, usize))
    requires
        occurrence_total(senses@) <= usize::MAX,
    ensures
        sense_triples(result.0@) == window_senses_of(senses@, items@),
        result.1 == window_sense_total(senses@, items@),
{
    let mut observed: Vec<WindowSense> = Vec::new();
    let mut total: usize = 0;
    let mut index: usize = 0;
    while index < senses.len()
        invariant
            index <= senses@.len(),
            occurrence_total(senses@) <= usize::MAX,
            total == window_sense_total(senses@.take(index as int), items@),
            sense_triples(observed@) == window_senses_of(senses@.take(index as int), items@),
        decreases senses@.len() - index,
    {
        proof {
            assert(senses@.take(index + 1).drop_last() =~= senses@.take(index as int));
            lemma_occurrence_total_prefix(senses@, index + 1);
            lemma_window_sense_total_bounded(senses@.take(index + 1), items@);
        }
        let sense = &senses[index];
        let (count, first) = occurrences_in_window(&sense.occurrences, items);
        total = total + count;
        match first {
            Some(k) => {
                if count > 0 {
                    let ghost before = observed@;
                    observed.push(
                        WindowSense {
                            cluster_id: sense.cluster_id.clone(),
                            occurrence_count: count,
                            evidence: copy_occurrence(&sense.occurrences[k]),
                        },
                    );
                    proof {
                        assert(sense_triples(observed@) =~= sense_triples(before).push(
                            (sense.cluster_id@, count as nat, sense.occurrences@[k as int]),
                        ));
                    }
                }
            },
            None => {},
        }
        index = index + 1;
    }
    proof {
        assert(senses@.take(index as int) =~= senses@);
    }
    (observed, total)
}

} // verus!
