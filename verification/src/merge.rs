//! Deep merge of configuration documents.
//!
//! An overlay is merged into a base document member by member. Where both
//! sides hold an object under the same key the merge descends; everywhere
//! else the overlay's value replaces the base's.

use vstd::prelude::*;
use crate::document::{
    find_member, has_key, lemma_position, members_view, position, Document, DocumentView, Member,
    MemberView,
};
use crate::merge_laws::{
    lemma_merged_members_keep_order, lemma_merged_members_shape, lemma_merged_wf,
};

verus! {

/// The result of merging `overlay` into `base`.
///
/// An overlay that is not an object replaces the base. An overlay that is an
/// object is merged member by member into the base's members, or into no
/// members at all where the base is not an object.
pub open spec fn merged(base: DocumentView, overlay: DocumentView) -> DocumentView
    decreases overlay, 0nat,
{
    match overlay {
        DocumentView::Object(entries) => DocumentView::Object(
            merged_members(base.members(), entries, entries.len()),
        ),
        _ => overlay,
    }
}

/// The members `base` holds once the first `n` members of `overlay` have been
/// merged into it, in order: a member whose key is already present is merged
/// into the value stored there, any other member is appended.
pub open spec fn merged_members(
    base: Seq<MemberView>,
    overlay: Seq<MemberView>,
    n: nat,
) -> Seq<MemberView>
    decreases overlay, n,
{
    if n == 0 || n > overlay.len() {
        base
    } else {
        let before = merged_members(base, overlay, (n - 1) as nat);
        let entry = overlay[n - 1];
        match position(before, entry.key) {
            Some(i) => before.update(
                i,
                MemberView { key: entry.key, value: merged(before[i].value, entry.value) },
            ),
            None => before.push(entry),
        }
    }
}

/// The predicate that holds of a member whose key `base` does not have.
pub open spec fn is_new_key(base: Seq<MemberView>) -> spec_fn(MemberView) -> bool {
    |member: MemberView| !has_key(base, member.key)
}

/// The members of `base`, in their order, each merged with the member that
/// `overlay` stores under the same key where there is one.
pub open spec fn kept_members(base: Seq<MemberView>, overlay: Seq<MemberView>) -> Seq<
    MemberView,
> {
    Seq::new(
        base.len(),
        |i: int|
            match position(overlay, base[i].key) {
                Some(j) => MemberView {
                    key: base[i].key,
                    value: merged(base[i].value, overlay[j].value),
                },
                None => base[i],
            },
    )
}

/// The members of `overlay`, in their order, whose keys `base` does not have.
pub open spec fn added_members(base: Seq<MemberView>, overlay: Seq<MemberView>) -> Seq<
    MemberView,
> {
    overlay.filter(is_new_key(base))
}

/// Merges `overlay` into `base` in place.
///
/// Every key of `overlay` is reflected in the result and keys that only
/// `base` has are kept. Under a key that both have, the merge descends when
/// both values are objects; otherwise the overlay's value replaces the
/// base's, whatever the two kinds are.
///
/// No member of the base is moved: its keys stay at their indices. For
/// well-formed documents and an overlay that is an object, the result is an
/// object that holds the base's members in their order, each merged with the
/// overlay's member of the same key, and behind them the overlay's members
/// with new keys in the overlay's order.
pub fn merge(base: &mut Document, overlay: Document)
    ensures
        final(base)@ == merged(old(base)@, overlay@),
        !(overlay@ is Object) ==> final(base)@ == overlay@,
        overlay@ is Object ==> final(base)@ is Object && final(base)@.members().len() >= old(
            base,
        )@.members().len(),
        overlay@ is Object ==> forall|i: int|
            0 <= i < old(base)@.members().len() ==> (#[trigger] final(base)@.members()[i]).key
                == old(base)@.members()[i].key,
        old(base)@.wf() && overlay@.wf() ==> final(base)@.wf(),
        old(base)@.wf() && overlay@.wf() && overlay@ is Object ==> final(base)@
            == DocumentView::Object(
            kept_members(old(base)@.members(), overlay@.members()) + added_members(
                old(base)@.members(),
                overlay@.members(),
            ),
        ),
    decreases overlay, 1nat,
{
    proof {
        if overlay@ is Object {
            lemma_merged_members_keep_order(
                base@.members(),
                overlay@.members(),
                overlay@.members().len(),
            );
        }
        if base@.wf() && overlay@.wf() {
            lemma_merged_wf(base@, overlay@);
            if overlay@ is Object {
                lemma_merged_members_shape(base@.members(), overlay@.members());
            }
        }
    }
    match overlay {
        Document::Object(entries) => {
            if !base.is_object() {
                *base = Document::Object(Vec::new());
                assert(members_view(Seq::<Member>::empty()) == Seq::<MemberView>::empty());
            }
            assert(base@ == DocumentView::Object(old(base)@.members()));
            match base {
                Document::Object(members) => {
                    merge_members(members, entries);
                },
                _ => {},
            }
        },
        other => {
            *base = other;
        },
    }
}

/// Merges the members of an overlay object, in order, into the members of a
/// base object.
pub fn merge_members(base: &mut Vec<Member>, overlay: Vec<Member>)
    ensures
        members_view(final(base)@) == merged_members(
            members_view(old(base)@),
            members_view(overlay@),
            overlay.len() as nat,
        ),
    decreases overlay, 0nat,
{
    let ghost entries = members_view(overlay@);
    for entry in it: overlay
        invariant
            it.seq() == overlay@,
            entries == members_view(overlay@),
            members_view(base@) == merged_members(
                members_view(old(base)@),
                entries,
                it.index() as nat,
            ),
    {
        let ghost before = base@;
        let ghost n = it.index();
        assert(entry == overlay@[n]);
        assert(entries[n] == entry@);
        match find_member(base, &entry.key) {
            Some(i) => {
                proof {
                    lemma_position(members_view(before), entry.key@);
                }
                merge(&mut base[i].value, entry.value);
                assert(members_view(base@) == members_view(before).update(
                    i as int,
                    MemberView {
                        key: entry.key@,
                        value: merged(members_view(before)[i as int].value, entry.value@),
                    },
                ));
            },
            None => {
                base.push(entry);
                assert(members_view(base@) == members_view(before).push(entry@));
            },
        }
    }
}

} // verus!
