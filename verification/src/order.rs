//! The order in which candidate sources are walked.

use vstd::prelude::*;
use crate::types::Source;

verus! {

/// The fixed priority of the known sources: hinge sensors first, then the
/// ambient-light and tilt fallbacks of each platform, the synthetic source
/// last.
pub open spec fn baseline() -> Seq<Source> {
    seq![
        Source::HingeFeature,
        Source::HingeHid,
        Source::ALS,
        Source::WinHinge,
        Source::WinTilt,
        Source::WinALS,
        Source::LinuxTilt,
        Source::LinuxALS,
        Source::Mock,
    ]
}

/// The predicate "is not listed in `banned`".
pub open spec fn not_in(banned: Seq<Source>) -> spec_fn(Source) -> bool {
    |s: Source| !banned.contains(s)
}

/// The predicate "is another tag than `tag`".
pub open spec fn other_than(tag: Source) -> spec_fn(Source) -> bool {
    |s: Source| s != tag
}

/// `order` with every tag of `banned` taken out.
pub open spec fn without(order: Seq<Source>, banned: Seq<Source>) -> Seq<Source> {
    order.filter(not_in(banned))
}

/// `order` with `tag` moved to the front, if it occurs at all.
pub open spec fn to_front(order: Seq<Source>, tag: Source) -> Seq<Source> {
    if order.contains(tag) {
        seq![tag] + order.filter(other_than(tag))
    } else {
        order
    }
}

/// `order` after each tag of `prefer` was moved to the front, the last
/// one first, so that the first one ends up frontmost.
pub open spec fn preferred_first(order: Seq<Source>, prefer: Seq<Source>) -> Seq<Source>
    decreases prefer.len(),
{
    if prefer.len() == 0 {
        order
    } else {
        to_front(preferred_first(order, prefer.drop_first()), prefer[0])
    }
}

/// The order in which the candidates are walked: the disabled ones are
/// dropped, the persisted tag is moved to the front, then the preferred
/// ones are.
pub open spec fn candidate_order(
    candidates: Seq<Source>,
    disable: Seq<Source>,
    persisted: Option<Source>,
    prefer: Seq<Source>,
) -> Seq<Source> {
    let kept = without(candidates, disable);
    let seeded = match persisted {
        Some(tag) => to_front(kept, tag),
        None => kept,
    };
    preferred_first(seeded, prefer)
}

/// Dropping tags from a list without repeats leaves no repeats.
proof fn lemma_filter_keeps_distinct(order: Seq<Source>, keep: spec_fn(Source) -> bool)
    requires
        order.no_duplicates(),
    ensures
        order.filter(keep).no_duplicates(),
    decreases order.len(),
{
    reveal(Seq::filter);
    if order.len() > 0 {
        let head = order.drop_last();
        lemma_filter_keeps_distinct(head, keep);
        if keep(order.last()) {
            let kept = head.filter(keep);
            if kept.contains(order.last()) {
                head.lemma_filter_contains_rev(keep, order.last());
                let i = choose|i: int| 0 <= i < head.len() && head[i] == order.last();
                assert(order[i] == order[order.len() - 1]);
            }
            assert forall|i: int, j: int|
                0 <= i < kept.push(order.last()).len() && 0 <= j < kept.push(order.last()).len()
                    && i != j implies kept.push(order.last())[i] != kept.push(order.last())[j] by {
                if i < kept.len() && j < kept.len() {
                } else if i < kept.len() {
                    assert(kept.contains(kept[i]));
                } else {
                    assert(kept.contains(kept[j]));
                }
            }
        }
    }
}

/// What stays after dropping tags: the tags of the list that were kept.
proof fn lemma_filter_members(order: Seq<Source>, keep: spec_fn(Source) -> bool, tag: Source)
    ensures
        order.filter(keep).contains(tag) <==> (order.contains(tag) && keep(tag)),
{
    let kept = order.filter(keep);
    if kept.contains(tag) {
        order.lemma_filter_contains_rev(keep, tag);
        let i = choose|i: int| 0 <= i < kept.len() && kept[i] == tag;
        order.lemma_filter_pred(keep, i);
    }
    if order.contains(tag) && keep(tag) {
        let i = choose|i: int| 0 <= i < order.len() && order[i] == tag;
        order.lemma_filter_contains(keep, i);
    }
}

/// Moving a tag to the front keeps the tags of the list, adds no repeat,
/// and puts the tag first if it occurs.
proof fn lemma_to_front(order: Seq<Source>, tag: Source)
    ensures
        forall|s: Source| #[trigger] to_front(order, tag).contains(s) <==> order.contains(s),
        order.no_duplicates() ==> to_front(order, tag).no_duplicates(),
        order.contains(tag) ==> to_front(order, tag).len() > 0 && to_front(order, tag)[0] == tag,
{
    let rest = order.filter(other_than(tag));
    let moved = to_front(order, tag);
    if order.contains(tag) {
        assert forall|s: Source| #[trigger] moved.contains(s) <==> order.contains(s) by {
            lemma_filter_members(order, other_than(tag), s);
            if moved.contains(s) {
                let i = choose|i: int| 0 <= i < moved.len() && moved[i] == s;
                if i > 0 {
                    assert(rest[i - 1] == s);
                    assert(rest.contains(s));
                }
            }
            if order.contains(s) {
                if s == tag {
                    assert(moved[0] == s);
                } else {
                    let i = choose|i: int| 0 <= i < rest.len() && rest[i] == s;
                    assert(moved[i + 1] == s);
                }
            }
        }
        if order.no_duplicates() {
            lemma_filter_keeps_distinct(order, other_than(tag));
            assert forall|i: int, j: int|
                0 <= i < moved.len() && 0 <= j < moved.len() && i != j implies moved[i]
                != moved[j] by {
                if i > 0 {
                    assert(moved[i] == rest[i - 1]);
                    assert(rest.contains(rest[i - 1]));
                    lemma_filter_members(order, other_than(tag), rest[i - 1]);
                }
                if j > 0 {
                    assert(moved[j] == rest[j - 1]);
                    assert(rest.contains(rest[j - 1]));
                    lemma_filter_members(order, other_than(tag), rest[j - 1]);
                }
            }
        }
    }
}

/// Moving the preferred tags to the front keeps the tags of the list,
/// adds no repeat, and puts the first preference first if it occurs.
proof fn lemma_preferred_first(order: Seq<Source>, prefer: Seq<Source>)
    ensures
        forall|s: Source| #[trigger]
            preferred_first(order, prefer).contains(s) <==> order.contains(s),
        order.no_duplicates() ==> preferred_first(order, prefer).no_duplicates(),
        prefer.len() > 0 && order.contains(prefer[0]) ==> preferred_first(order, prefer).len() > 0
            && preferred_first(order, prefer)[0] == prefer[0],
    decreases prefer.len(),
{
    if prefer.len() > 0 {
        let inner = preferred_first(order, prefer.drop_first());
        lemma_preferred_first(order, prefer.drop_first());
        lemma_to_front(inner, prefer[0]);
        assert forall|s: Source| #[trigger]
            preferred_first(order, prefer).contains(s) <==> order.contains(s) by {
            assert(to_front(inner, prefer[0]).contains(s) <==> inner.contains(s));
        }
        if order.contains(prefer[0]) {
            assert(inner.contains(prefer[0]));
        }
    }
}

/// A tag is a candidate of the walk exactly when it is known and not
/// disabled: neither persistence nor preference adds or removes one.
pub proof fn lemma_order_members(
    candidates: Seq<Source>,
    disable: Seq<Source>,
    persisted: Option<Source>,
    prefer: Seq<Source>,
    tag: Source,
)
    ensures
        candidate_order(candidates, disable, persisted, prefer).contains(tag) <==> (
        candidates.contains(tag) && !disable.contains(tag)),
{
    let kept = without(candidates, disable);
    lemma_filter_members(candidates, not_in(disable), tag);
    let seeded = match persisted {
        Some(p) => to_front(kept, p),
        None => kept,
    };
    if let Some(p) = persisted {
        lemma_to_front(kept, p);
        assert(to_front(kept, p).contains(tag) <==> kept.contains(tag));
    }
    lemma_preferred_first(seeded, prefer);
    assert(preferred_first(seeded, prefer).contains(tag) <==> seeded.contains(tag));
}

/// No candidate is walked twice, where none is listed twice to begin with.
pub proof fn lemma_order_distinct(
    candidates: Seq<Source>,
    disable: Seq<Source>,
    persisted: Option<Source>,
    prefer: Seq<Source>,
)
    requires
        candidates.no_duplicates(),
    ensures
        candidate_order(candidates, disable, persisted, prefer).no_duplicates(),
{
    let kept = without(candidates, disable);
    lemma_filter_keeps_distinct(candidates, not_in(disable));
    let seeded = match persisted {
        Some(p) => to_front(kept, p),
        None => kept,
    };
    if let Some(p) = persisted {
        lemma_to_front(kept, p);
    }
    lemma_preferred_first(seeded, prefer);
}

/// The first preference that is a candidate is walked first, whatever was
/// persisted: explicit preference outranks history.
pub proof fn lemma_first_preference_leads(
    candidates: Seq<Source>,
    disable: Seq<Source>,
    persisted: Option<Source>,
    prefer: Seq<Source>,
)
    requires
        prefer.len() > 0,
        candidates.contains(prefer[0]),
        !disable.contains(prefer[0]),
    ensures
        candidate_order(candidates, disable, persisted, prefer).len() > 0,
        candidate_order(candidates, disable, persisted, prefer)[0] == prefer[0],
{
    let kept = without(candidates, disable);
    lemma_filter_members(candidates, not_in(disable), prefer[0]);
    let seeded = match persisted {
        Some(p) => to_front(kept, p),
        None => kept,
    };
    if let Some(p) = persisted {
        lemma_to_front(kept, p);
        assert(to_front(kept, p).contains(prefer[0]) <==> kept.contains(prefer[0]));
    }
    lemma_preferred_first(seeded, prefer);
}

/// Without preferences, the persisted tag is walked first if it is a
/// candidate.
pub proof fn lemma_persisted_leads(
    candidates: Seq<Source>,
    disable: Seq<Source>,
    tag: Source,
)
    requires
        candidates.contains(tag),
        !disable.contains(tag),
    ensures
        candidate_order(candidates, disable, Some(tag), Seq::empty()).len() > 0,
        candidate_order(candidates, disable, Some(tag), Seq::empty())[0] == tag,
{
    let kept = without(candidates, disable);
    lemma_filter_members(candidates, not_in(disable), tag);
    lemma_to_front(kept, tag);
}

/// With everything disabled there is nothing to walk.
pub proof fn lemma_all_disabled_is_empty(
    candidates: Seq<Source>,
    disable: Seq<Source>,
    persisted: Option<Source>,
    prefer: Seq<Source>,
)
    requires
        forall|i: int| 0 <= i < candidates.len() ==> disable.contains(#[trigger] candidates[i]),
    ensures
        candidate_order(candidates, disable, persisted, prefer).len() == 0,
{
    let order = candidate_order(candidates, disable, persisted, prefer);
    if order.len() > 0 {
        assert(order.contains(order[0]));
        lemma_order_members(candidates, disable, persisted, prefer, order[0]);
        let i = choose|i: int| 0 <= i < candidates.len() && candidates[i] == order[0];
        assert(disable.contains(candidates[i]));
    }
}

/// The baseline priority list.
pub fn baseline_order() -> (order: Vec<Source>)
    ensures
        order@ == baseline(),
{
    let mut order: Vec<Source> = Vec::new();
    order.push(Source::HingeFeature);
    order.push(Source::HingeHid);
    order.push(Source::ALS);
    order.push(Source::WinHinge);
    order.push(Source::WinTilt);
    order.push(Source::WinALS);
    order.push(Source::LinuxTilt);
    order.push(Source::LinuxALS);
    order.push(Source::Mock);
    assert(order@ =~= baseline());
    order
}

/// Whether `tag` occurs in `list`.
pub fn contains(list: &Vec<Source>, tag: Source) -> (found: bool)
    ensures
        found == list@.contains(tag),
{
    let mut i: usize = 0;
    while i < list.len()
        invariant
            i <= list.len(),
            forall|j: int| 0 <= j < i ==> list@[j] != tag,
        decreases list.len() - i,
    {
        if list[i] == tag {
            return true;
        }
        i += 1;
    }
    false
}

fn remove_all(order: &Vec<Source>, banned: &Vec<Source>) -> (kept: Vec<Source>)
    ensures
        kept@ == without(order@, banned@),
{
    let mut kept: Vec<Source> = Vec::new();
    let mut i: usize = 0;
    proof {
        reveal(Seq::filter);
        assert(order@.take(0).filter(not_in(banned@)) =~= Seq::<Source>::empty());
    }
    while i < order.len()
        invariant
            i <= order.len(),
            kept@ == order@.take(i as int).filter(not_in(banned@)),
        decreases order.len() - i,
    {
        let tag = order[i];
        proof {
            order@.take(i as int).lemma_filter_push(tag, not_in(banned@));
            assert(order@.take(i as int).push(tag) =~= order@.take(i + 1));
        }
        if !contains(banned, tag) {
            kept.push(tag);
        }
        i += 1;
    }
    assert(order@.take(order.len() as int) =~= order@);
    kept
}

fn move_to_front(order: Vec<Source>, tag: Source) -> (moved: Vec<Source>)
    ensures
        moved@ == to_front(order@, tag),
{
    if !contains(&order, tag) {
        return order;
    }
    let mut moved: Vec<Source> = Vec::new();
    moved.push(tag);
    let mut i: usize = 0;
    proof {
        reveal(Seq::filter);
        assert(order@.take(0).filter(other_than(tag)) =~= Seq::<Source>::empty());
        assert(moved@ =~= seq![tag] + order@.take(0).filter(other_than(tag)));
    }
    while i < order.len()
        invariant
            i <= order.len(),
            moved@ == seq![tag] + order@.take(i as int).filter(other_than(tag)),
        decreases order.len() - i,
    {
        let here = order[i];
        proof {
            order@.take(i as int).lemma_filter_push(here, other_than(tag));
            assert(order@.take(i as int).push(here) =~= order@.take(i + 1));
        }
        if here != tag {
            moved.push(here);
        }
        i += 1;
        assert(moved@ =~= seq![tag] + order@.take(i as int).filter(other_than(tag)));
    }
    assert(order@.take(order.len() as int) =~= order@);
    moved
}

/// Computes the order in which candidates are walked.
pub fn order_candidates(
    candidates: &Vec<Source>,
    disable: &Vec<Source>,
    persisted: Option<Source>,
    prefer: &Vec<Source>,
) -> (order: Vec<Source>)
    ensures
        order@ == candidate_order(candidates@, disable@, persisted, prefer@),
{
    let mut order = remove_all(candidates, disable);
    if let Some(tag) = persisted {
        order = move_to_front(order, tag);
    }
    let ghost seeded = order@;
    let mut i: usize = prefer.len();
    assert(prefer@.skip(i as int) =~= Seq::<Source>::empty());
    while i > 0
        invariant
            i <= prefer.len(),
            order@ == preferred_first(seeded, prefer@.skip(i as int)),
        decreases i,
    {
        i -= 1;
        assert(prefer@.skip(i as int).drop_first() =~= prefer@.skip(i + 1));
        order = move_to_front(order, prefer[i]);
    }
    assert(prefer@.skip(0) =~= prefer@);
    order
}

} // verus!
