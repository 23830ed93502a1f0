//! The initialization options sent to the language server at startup: a
//! fixed baseline, with the user's overrides merged into it.

use vstd::prelude::*;
use crate::document::{
    all_wf, distinct_keys, items_view, lemma_position, lemma_position_unique, members_view,
    Document, DocumentView, Member, MemberView,
};
use crate::merge::{merge, merged};
use crate::merge_laws::{lemma_merged_get, lemma_merged_wf};

verus! {

/// The key of the scan settings.
pub const SCAN: &'static str = "scan";

/// The key, under the scan settings, of the rule configurations to scan with.
pub const CONFIGURATION: &'static str = "configuration";

/// The key, under the scan settings, of the switch that restricts the scan
/// to files that git reports as changed.
pub const ONLY_GIT_DIRTY: &'static str = "only_git_dirty";

/// The rule configuration used by default.
pub const AUTO: &'static str = "auto";

/// The scan settings of the baseline: the automatic rule configuration, on
/// all files.
pub open spec fn baseline_scan() -> DocumentView {
    DocumentView::Object(
        seq![
            MemberView {
                key: CONFIGURATION@,
                value: DocumentView::Array(seq![DocumentView::String(AUTO@)]),
            },
            MemberView { key: ONLY_GIT_DIRTY@, value: DocumentView::Bool(false) },
        ],
    )
}

/// The baseline options: the baseline scan settings under the scan key.
pub open spec fn baseline_options() -> DocumentView {
    DocumentView::Object(seq![MemberView { key: SCAN@, value: baseline_scan() }])
}

/// The options for given overrides: the baseline, with the overrides merged
/// into it where there are any.
pub open spec fn effective_options(overrides: Option<DocumentView>) -> DocumentView {
    match overrides {
        Some(overlay) => merged(baseline_options(), overlay),
        None => baseline_options(),
    }
}

/// The two keys of the baseline scan settings differ.
pub proof fn lemma_scan_keys_differ()
    ensures
        CONFIGURATION@ != ONLY_GIT_DIRTY@,
{
    reveal_strlit("configuration");
    reveal_strlit("only_git_dirty");
    assert(CONFIGURATION@.len() == 13);
    assert(ONLY_GIT_DIRTY@.len() == 14);
}

/// The baseline options are well formed.
pub proof fn lemma_baseline_wf()
    ensures
        baseline_scan().wf(),
        baseline_options().wf(),
{
    lemma_scan_keys_differ();
    let items = seq![DocumentView::String(AUTO@)];
    assert(all_wf(items)) by {
        assert forall|i: int| 0 <= i < items.len() implies (#[trigger] items[i]).wf() by {}
    }
    assert(DocumentView::Array(items).wf());
    let scan = baseline_scan().members();
    assert(distinct_keys(scan));
    assert forall|i: int| 0 <= i < scan.len() implies (#[trigger] scan[i]).value.wf() by {}
    assert(baseline_scan().wf());
    let options = baseline_options().members();
    assert(distinct_keys(options));
    assert forall|i: int| 0 <= i < options.len() implies (#[trigger] options[i]).value.wf() by {}
}

/// The baseline stores the baseline scan settings under the scan key, and
/// these store the two defaults under their keys.
pub proof fn lemma_baseline_get()
    ensures
        baseline_options().get(SCAN@) == Some(baseline_scan()),
        baseline_scan().get(CONFIGURATION@) == Some(
            DocumentView::Array(seq![DocumentView::String(AUTO@)]),
        ),
        baseline_scan().get(ONLY_GIT_DIRTY@) == Some(DocumentView::Bool(false)),
{
    lemma_scan_keys_differ();
    lemma_position_unique(baseline_options().members(), SCAN@, 0);
    lemma_position_unique(baseline_scan().members(), CONFIGURATION@, 0);
    lemma_position_unique(baseline_scan().members(), ONLY_GIT_DIRTY@, 1);
}

/// Without overrides, and with overrides that are an object without members,
/// the options are the baseline.
pub proof fn lemma_no_overrides_keep_baseline()
    ensures
        effective_options(None) == baseline_options(),
        effective_options(Some(DocumentView::Object(Seq::empty()))) == baseline_options(),
{
}

/// Well-formed overrides give well-formed options.
pub proof fn lemma_effective_options_wf(overrides: Option<DocumentView>)
    requires
        overrides matches Some(overlay) ==> overlay.wf(),
    ensures
        effective_options(overrides).wf(),
{
    lemma_baseline_wf();
    if let Some(overlay) = overrides {
        lemma_merged_wf(baseline_options(), overlay);
    }
}

/// The options keep an object under the scan key as long as the overrides
/// are an object that stores nothing but an object there: the baseline scan
/// settings where the overrides have none, else the overrides' scan settings
/// merged into the baseline's.
pub proof fn lemma_scan_stays_object(overlay: DocumentView)
    requires
        overlay.wf(),
        overlay is Object,
        overlay.get(SCAN@) matches Some(scan) ==> scan is Object,
    ensures
        effective_options(Some(overlay)) is Object,
        effective_options(Some(overlay)).get(SCAN@) == Some(
            match overlay.get(SCAN@) {
                Some(scan) => merged(baseline_scan(), scan),
                None => baseline_scan(),
            },
        ),
        effective_options(Some(overlay)).get(SCAN@)->0 is Object,
{
    lemma_baseline_wf();
    lemma_baseline_get();
    lemma_merged_get(baseline_options(), overlay, SCAN@);
}

/// Overrides that store something other than an object under the scan key
/// win: the options store exactly that value there.
pub proof fn lemma_scan_override_wins(overlay: DocumentView)
    requires
        overlay.wf(),
        overlay is Object,
        overlay.get(SCAN@) matches Some(scan) && !(scan is Object),
    ensures
        effective_options(Some(overlay)).get(SCAN@) == overlay.get(SCAN@),
{
    lemma_baseline_wf();
    lemma_baseline_get();
    lemma_merged_get(baseline_options(), overlay, SCAN@);
}

/// A default of the baseline scan settings stays in force unless the
/// overrides' scan settings store something under its key, and whatever the
/// overrides' scan settings store under a key of their own is in force.
pub proof fn lemma_scan_setting(overlay: DocumentView, key: Seq<char>)
    requires
        overlay.wf(),
        overlay is Object,
        overlay.get(SCAN@) matches Some(scan) && scan is Object,
    ensures
        effective_options(Some(overlay)).get(SCAN@) matches Some(scan) && scan.get(key) == (
        match overlay.get(SCAN@)->0.get(key) {
            Some(theirs) => match baseline_scan().get(key) {
                Some(ours) => Some(merged(ours, theirs)),
                None => Some(theirs),
            },
            None => baseline_scan().get(key),
        }),
{
    lemma_scan_stays_object(overlay);
    lemma_baseline_wf();
    let scan = overlay.get(SCAN@)->0;
    lemma_position(overlay.members(), SCAN@);
    assert(scan.wf());
    lemma_merged_get(baseline_scan(), scan, key);
}

/// Builds the baseline options.
pub fn baseline() -> (options: Document)
    ensures
        options@ == baseline_options(),
        options@.wf(),
{
    proof {
        lemma_baseline_wf();
    }
    let mut configuration: Vec<Document> = Vec::new();
    configuration.push(Document::String(AUTO.to_owned()));
    assert(items_view(configuration@) == seq![DocumentView::String(AUTO@)]);
    let mut scan: Vec<Member> = Vec::new();
    scan.push(Member { key: CONFIGURATION.to_owned(), value: Document::Array(configuration) });
    scan.push(Member { key: ONLY_GIT_DIRTY.to_owned(), value: Document::Bool(false) });
    assert(members_view(scan@) == baseline_scan().members());
    let mut options: Vec<Member> = Vec::new();
    options.push(Member { key: SCAN.to_owned(), value: Document::Object(scan) });
    assert(members_view(options@) == baseline_options().members());
    Document::Object(options)
}

/// Builds the initialization options: the baseline, with the user's
/// overrides merged into it where there are any.
pub fn initialization_options(overrides: Option<Document>) -> (options: Document)
    ensures
        options@ == effective_options(overrides.deep_view()),
        overrides is None ==> options@ == baseline_options(),
        (overrides matches Some(overlay) ==> overlay@.wf()) ==> options@.wf(),
{
    let mut options = baseline();
    match overrides {
        Some(overlay) => {
            merge(&mut options, overlay);
        },
        None => {},
    }
    options
}

} // verus!
