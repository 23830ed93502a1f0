//! What holds of every merge: the shape of a merged object, the value found
//! under each key, and the laws that follow from them.

use vstd::prelude::*;
use crate::document::{
    distinct_keys, has_key, lemma_position, lemma_position_distinct, lemma_position_unique,
    position, DocumentView, MemberView,
};
use crate::merge::{added_members, is_new_key, kept_members, merged, merged_members};

verus! {

/// Appending a member changes the position of no key that was present, and
/// gives the appended member's key the new last index if it was absent.
pub proof fn lemma_position_push(members: Seq<MemberView>, member: MemberView, key: Seq<char>)
    ensures
        position(members.push(member), key) == match position(members, key) {
            Some(i) => Some(i),
            None => if member.key == key {
                Some(members.len() as int)
            } else {
                None
            },
        },
{
    let pushed = members.push(member);
    lemma_position(members, key);
    lemma_position(pushed, key);
    match position(members, key) {
        Some(i) => {
            assert(pushed[i] == members[i]);
            assert forall|j: int| 0 <= j < i implies #[trigger] pushed[j].key != key by {
                assert(pushed[j] == members[j]);
            }
            lemma_position_unique(pushed, key, i);
        },
        None => {
            if member.key == key {
                assert forall|j: int| 0 <= j < members.len() implies #[trigger] pushed[j].key
                    != key by {
                    assert(pushed[j] == members[j]);
                }
                lemma_position_unique(pushed, key, members.len() as int);
            } else {
                if position(pushed, key) is Some {
                    let i = position(pushed, key)->0;
                    if i < members.len() {
                        assert(pushed[i] == members[i]);
                    }
                }
            }
        },
    }
}

/// Merging never moves a member of the base: the base's keys stay where they
/// were, and members are only ever added behind them.
pub proof fn lemma_merged_members_keep_order(
    base: Seq<MemberView>,
    overlay: Seq<MemberView>,
    n: nat,
)
    ensures
        merged_members(base, overlay, n).len() >= base.len(),
        forall|i: int|
            0 <= i < base.len() ==> (#[trigger] merged_members(base, overlay, n)[i]).key
                == base[i].key,
    decreases n,
{
    if n == 0 || n > overlay.len() {
    } else {
        lemma_merged_members_keep_order(base, overlay, (n - 1) as nat);
        let before = merged_members(base, overlay, (n - 1) as nat);
        lemma_position(before, overlay[n - 1].key);
    }
}

/// Merging well-formed members into well-formed members leaves them well
/// formed.
pub proof fn lemma_merged_members_wf(base: Seq<MemberView>, overlay: Seq<MemberView>, n: nat)
    requires
        DocumentView::Object(base).wf(),
        DocumentView::Object(overlay).wf(),
    ensures
        DocumentView::Object(merged_members(base, overlay, n)).wf(),
    decreases overlay, n,
{
    if n == 0 || n > overlay.len() {
    } else {
        lemma_merged_members_wf(base, overlay, (n - 1) as nat);
        let before = merged_members(base, overlay, (n - 1) as nat);
        let entry = overlay[n - 1];
        let after = merged_members(base, overlay, n);
        lemma_position(before, entry.key);
        match position(before, entry.key) {
            Some(i) => {
                lemma_merged_wf(before[i].value, entry.value);
                assert forall|a: int, b: int| 0 <= a < b < after.len() implies after[a].key
                    != after[b].key by {
                    assert(after[a].key == before[a].key);
                    assert(after[b].key == before[b].key);
                }
                assert forall|a: int| 0 <= a < after.len() implies (#[trigger] after[a]).value.wf() by {
                    if a != i {
                        assert(after[a] == before[a]);
                    }
                }
            },
            None => {
                assert forall|a: int, b: int| 0 <= a < b < after.len() implies after[a].key
                    != after[b].key by {
                    if b < before.len() {
                        assert(after[a] == before[a]);
                        assert(after[b] == before[b]);
                    } else {
                        assert(after[a] == before[a]);
                    }
                }
                assert forall|a: int| 0 <= a < after.len() implies (#[trigger] after[a]).value.wf() by {
                    if a < before.len() {
                        assert(after[a] == before[a]);
                    }
                }
            },
        }
    }
}

/// Merging a well-formed overlay into a well-formed base gives a well-formed
/// document.
pub proof fn lemma_merged_wf(base: DocumentView, overlay: DocumentView)
    requires
        base.wf(),
        overlay.wf(),
    ensures
        merged(base, overlay).wf(),
    decreases overlay, 0nat,
{
    match overlay {
        DocumentView::Object(entries) => {
            assert(DocumentView::Object(base.members()).wf());
            lemma_merged_members_wf(base.members(), entries, entries.len());
        },
        _ => {},
    }
}

/// The shape of the members after the first `n` members of the overlay have
/// been merged in, for distinct keys on both sides: the base's members in
/// their order, each merged with its counterpart among those `n`, followed
/// by those of the `n` whose keys are new, in the overlay's order.
pub proof fn lemma_merged_members_prefix_shape(
    base: Seq<MemberView>,
    overlay: Seq<MemberView>,
    n: nat,
)
    requires
        distinct_keys(base),
        distinct_keys(overlay),
        n <= overlay.len(),
    ensures
        merged_members(base, overlay, n) == kept_members(base, overlay.take(n as int))
            + added_members(base, overlay.take(n as int)),
    decreases n,
{
    let cur = overlay.take(n as int);
    if n == 0 {
        reveal(Seq::filter);
        assert(added_members(base, cur) == Seq::<MemberView>::empty());
        assert forall|i: int| 0 <= i < base.len() implies kept_members(base, cur)[i]
            == base[i] by {
            lemma_position(cur, base[i].key);
        }
        assert(merged_members(base, overlay, n) == kept_members(base, cur) + added_members(
            base,
            cur,
        ));
    } else {
        let prev = overlay.take(n - 1);
        let entry = overlay[n - 1];
        let key = entry.key;
        lemma_merged_members_prefix_shape(base, overlay, (n - 1) as nat);
        let before = merged_members(base, overlay, (n - 1) as nat);
        let kept_before = kept_members(base, prev);
        let added_before = added_members(base, prev);
        assert(cur == prev.push(entry));
        prev.lemma_filter_push(entry, is_new_key(base));
        // The overlay's keys are distinct, so `key` is new among `prev`.
        lemma_position(prev, key);
        assert(position(prev, key) is None) by {
            if position(prev, key) is Some {
                let j = position(prev, key)->0;
                assert(prev[j] == overlay[j]);
            }
        }
        assert forall|i: int| 0 <= i < base.len() implies (#[trigger] kept_before[i]).key
            == base[i].key by {}
        lemma_position(base, key);
        if has_key(base, key) {
            let p = position(base, key)->0;
            assert(before[p] == kept_before[p]);
            assert(before[p] == base[p]);
            assert forall|j: int| 0 <= j < p implies #[trigger] before[j].key != key by {
                assert(before[j] == kept_before[j]);
            }
            lemma_position_unique(before, key, p);
            let after = before.update(
                p,
                MemberView { key: key, value: merged(before[p].value, entry.value) },
            );
            assert(merged_members(base, overlay, n) == after);
            let kept = kept_members(base, cur);
            assert forall|i: int| 0 <= i < base.len() implies #[trigger] kept[i] == after[i] by {
                lemma_position_push(prev, entry, base[i].key);
                if i == p {
                    assert(cur[n - 1] == entry);
                } else {
                    assert(base[i].key != key);
                    assert(after[i] == kept_before[i]);
                    if position(prev, base[i].key) is Some {
                        let j = position(prev, base[i].key)->0;
                        lemma_position(prev, base[i].key);
                        assert(cur[j] == prev[j]);
                    }
                }
            }
            assert(after == kept + added_members(base, cur));
        } else {
            assert forall|i: int| 0 <= i < before.len() implies #[trigger] before[i].key
                != key by {
                if i < base.len() {
                    assert(before[i] == kept_before[i]);
                } else {
                    let member = added_before[i - base.len()];
                    assert(before[i] == member);
                    assert(added_before.contains(member));
                    prev.lemma_filter_contains_rev(is_new_key(base), member);
                    let j = choose|j: int| 0 <= j < prev.len() && prev[j] == member;
                    assert(prev[j] == overlay[j]);
                }
            }
            lemma_position(before, key);
            assert(position(before, key) is None);
            let after = before.push(entry);
            assert(merged_members(base, overlay, n) == after);
            let kept = kept_members(base, cur);
            assert forall|i: int| 0 <= i < base.len() implies #[trigger] kept[i]
                == kept_before[i] by {
                lemma_position_push(prev, entry, base[i].key);
                if position(prev, base[i].key) is Some {
                    let j = position(prev, base[i].key)->0;
                    lemma_position(prev, base[i].key);
                    assert(cur[j] == prev[j]);
                }
            }
            assert(kept == kept_before);
            assert(after == kept + added_members(base, cur));
        }
    }
}

/// The shape of a merged object, for distinct keys on both sides: the base's
/// members in their order, each merged with the overlay's member of the same
/// key where there is one, followed by the overlay's members whose keys are
/// new, in the overlay's order.
pub proof fn lemma_merged_members_shape(base: Seq<MemberView>, overlay: Seq<MemberView>)
    requires
        distinct_keys(base),
        distinct_keys(overlay),
    ensures
        merged_members(base, overlay, overlay.len()) == kept_members(base, overlay)
            + added_members(base, overlay),
{
    lemma_merged_members_prefix_shape(base, overlay, overlay.len());
    assert(overlay.take(overlay.len() as int) == overlay);
}

/// No member is added where the base already has every key of the overlay.
pub proof fn lemma_nothing_added(base: Seq<MemberView>, overlay: Seq<MemberView>)
    requires
        forall|j: int| 0 <= j < overlay.len() ==> has_key(base, (#[trigger] overlay[j]).key),
    ensures
        added_members(base, overlay) == Seq::<MemberView>::empty(),
{
    let added = added_members(base, overlay);
    if added.len() > 0 {
        let member = added[0];
        overlay.lemma_filter_pred(is_new_key(base), 0);
        assert(added.contains(member));
        overlay.lemma_filter_contains_rev(is_new_key(base), member);
        let j = choose|j: int| 0 <= j < overlay.len() && overlay[j] == member;
        assert(has_key(base, overlay[j].key));
    }
}

/// The value a merged object stores under each key, for distinct keys on
/// both sides: the merge of the two values where both sides have the key,
/// and the one value there is where only one side has it. A key that neither
/// side has is absent.
pub proof fn lemma_merged_get(base: DocumentView, overlay: DocumentView, key: Seq<char>)
    requires
        overlay is Object,
        distinct_keys(base.members()),
        distinct_keys(overlay.members()),
    ensures
        merged(base, overlay).get(key) == match overlay.get(key) {
            Some(theirs) => match base.get(key) {
                Some(ours) => Some(merged(ours, theirs)),
                None => Some(theirs),
            },
            None => base.get(key),
        },
{
    let b = base.members();
    let o = overlay.members();
    let r = merged_members(b, o, o.len());
    let kept = kept_members(b, o);
    let added = added_members(b, o);
    lemma_merged_members_shape(b, o);
    assert(merged(base, overlay).members() == r);
    lemma_position(b, key);
    lemma_position(o, key);
    lemma_position(r, key);
    assert forall|i: int| 0 <= i < b.len() implies (#[trigger] r[i]).key == b[i].key by {
        assert(r[i] == kept[i]);
    }
    assert forall|i: int| b.len() <= i < r.len() implies exists|j: int|
        0 <= j < o.len() && o[j] == #[trigger] r[i] && !has_key(b, o[j].key) by {
        let member = added[i - b.len()];
        assert(r[i] == member);
        o.lemma_filter_pred(is_new_key(b), i - b.len());
        assert(added.contains(member));
        o.lemma_filter_contains_rev(is_new_key(b), member);
        let j = choose|j: int| 0 <= j < o.len() && o[j] == member;
        assert(o[j] == r[i]);
    }
    if has_key(b, key) {
        let p = position(b, key)->0;
        assert(r[p] == kept[p]);
        assert forall|j: int| 0 <= j < p implies #[trigger] r[j].key != key by {}
        lemma_position_unique(r, key, p);
    } else if has_key(o, key) {
        let q = position(o, key)->0;
        o.lemma_filter_contains(is_new_key(b), q);
        let a = choose|a: int| 0 <= a < added.len() && added[a] == o[q];
        assert(r[b.len() + a] == o[q]);
        assert(has_key(r, key));
        let i = position(r, key)->0;
        assert(i >= b.len()) by {
            if i < b.len() {
                assert(r[i].key == b[i].key);
            }
        }
        let j = choose|j: int| 0 <= j < o.len() && o[j] == r[i] && !has_key(b, o[j].key);
        assert(j == q);
    } else {
        if position(r, key) is Some {
            let i = position(r, key)->0;
            if i < b.len() {
                assert(r[i].key == b[i].key);
            } else {
                let j = choose|j: int| 0 <= j < o.len() && o[j] == r[i] && !has_key(b, o[j].key);
                assert(o[j].key == key);
            }
        }
    }
}

/// An object with distinct keys that is merged into anything but an object
/// comes out as it is.
pub proof fn lemma_merged_into_other_kind(base: DocumentView, overlay: DocumentView)
    requires
        !(base is Object),
        overlay is Object ==> distinct_keys(overlay.members()),
    ensures
        merged(base, overlay) == overlay,
{
    if overlay is Object {
        let o = overlay.members();
        let empty = Seq::<MemberView>::empty();
        lemma_merged_members_shape(empty, o);
        assert(kept_members(empty, o) == empty);
        assert forall|j: int| 0 <= j < o.len() implies is_new_key(empty)(#[trigger] o[j]) by {}
        lemma_filter_all(o, is_new_key(empty));
        assert(merged_members(empty, o, o.len()) == o);
    }
}

/// A filter that every element passes keeps the whole sequence.
proof fn lemma_filter_all(members: Seq<MemberView>, pred: spec_fn(MemberView) -> bool)
    requires
        forall|j: int| 0 <= j < members.len() ==> pred(#[trigger] members[j]),
    ensures
        members.filter(pred) == members,
    decreases members.len(),
{
    reveal(Seq::filter);
    if members.len() > 0 {
        lemma_filter_all(members.drop_last(), pred);
        assert(members.drop_last().push(members.last()) == members);
    }
}

/// Merging a well-formed document into itself changes nothing.
pub proof fn lemma_merged_with_itself(document: DocumentView)
    requires
        document.wf(),
    ensures
        merged(document, document) == document,
    decreases document,
{
    match document {
        DocumentView::Object(o) => {
            lemma_merged_members_shape(o, o);
            assert forall|j: int| 0 <= j < o.len() implies has_key(o, (#[trigger] o[j]).key) by {}
            lemma_nothing_added(o, o);
            let kept = kept_members(o, o);
            assert forall|i: int| 0 <= i < o.len() implies #[trigger] kept[i] == o[i] by {
                lemma_position_distinct(o, i);
                lemma_merged_with_itself(o[i].value);
            }
            assert(kept == o);
            assert(kept + Seq::<MemberView>::empty() == o);
        },
        _ => {},
    }
}

/// Merging is idempotent: merging an overlay a second time into the result
/// of merging it once changes nothing.
pub proof fn lemma_merge_idempotent(base: DocumentView, overlay: DocumentView)
    requires
        base.wf(),
        overlay.wf(),
    ensures
        merged(merged(base, overlay), overlay) == merged(base, overlay),
    decreases overlay,
{
    match overlay {
        DocumentView::Object(o) => {
            let once = merged(base, overlay);
            let r = once.members();
            lemma_merged_wf(base, overlay);
            lemma_merged_members_shape(r, o);
            assert forall|j: int| 0 <= j < o.len() implies has_key(r, (#[trigger] o[j]).key) by {
                lemma_merged_get(base, overlay, o[j].key);
                lemma_position_distinct(o, j);
            }
            lemma_nothing_added(r, o);
            let kept = kept_members(r, o);
            assert forall|i: int| 0 <= i < r.len() implies #[trigger] kept[i] == r[i] by {
                let key = r[i].key;
                lemma_position(o, key);
                if position(o, key) is Some {
                    let j = position(o, key)->0;
                    lemma_merged_get(base, overlay, key);
                    lemma_position_distinct(r, i);
                    lemma_position(base.members(), key);
                    match base.get(key) {
                        Some(ours) => {
                            lemma_merge_idempotent(ours, o[j].value);
                        },
                        None => {
                            lemma_merged_with_itself(o[j].value);
                        },
                    }
                }
            }
            assert(kept == r);
            assert(kept + Seq::<MemberView>::empty() == r);
        },
        _ => {},
    }
}

/// Merging an object without members into an object changes nothing.
pub proof fn lemma_merge_empty_overlay(base: DocumentView)
    requires
        base is Object,
    ensures
        merged(base, DocumentView::Object(Seq::empty())) == base,
{
}

/// Where the overlay's value at a path is not an object, or the base has no
/// object at that path, the result holds the overlay's value at that path
/// exactly: nothing of the base is mixed into it.
pub proof fn lemma_overlay_wins(base: DocumentView, overlay: DocumentView, path: Seq<Seq<char>>)
    requires
        base.wf(),
        overlay.wf(),
        overlay.at(path) is Some,
        !(overlay.at(path)->0 is Object) || !(base.at(path) matches Some(ours) && ours is Object),
    ensures
        merged(base, overlay).at(path) == overlay.at(path),
    decreases path.len(),
{
    if path.len() == 0 {
        if overlay is Object {
            lemma_merged_into_other_kind(base, overlay);
        }
    } else {
        let key = path[0];
        let rest = path.drop_first();
        lemma_position(overlay.members(), key);
        lemma_position(base.members(), key);
        let theirs = overlay.get(key)->0;
        lemma_merged_get(base, overlay, key);
        match base.get(key) {
            Some(ours) => {
                lemma_overlay_wins(ours, theirs, rest);
            },
            None => {},
        }
    }
}

/// Where base and overlay both have a value at a path and exactly one of
/// the two is an object, the result holds the overlay's value at that path.
pub proof fn lemma_kind_mismatch_overlay_wins(
    base: DocumentView,
    overlay: DocumentView,
    path: Seq<Seq<char>>,
)
    requires
        base.wf(),
        overlay.wf(),
        base.at(path) is Some,
        overlay.at(path) is Some,
        (base.at(path)->0 is Object) != (overlay.at(path)->0 is Object),
    ensures
        merged(base, overlay).at(path) == overlay.at(path),
{
    lemma_overlay_wins(base, overlay, path);
}

} // verus!
