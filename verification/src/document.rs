//! Configuration documents: a tree of null, boolean, number, string, array
//! and object nodes, together with the mathematical model that contracts
//! are stated over.

use vstd::prelude::*;

verus! {

/// A number node.
///
/// Integers are held exactly. A number with a fractional part or an exponent
/// is held as the bit pattern of its IEEE 754 binary64 value, so that it can
/// be carried and compared without arithmetic.
#[derive(Clone, Copy, Debug, PartialEq, Eq, Structural)]
pub enum Number {
    Unsigned(u64),
    Signed(i64),
    Real(u64),
}

/// A configuration document.
#[derive(Debug, PartialEq, Eq)]
pub enum Document {
    Null,
    Bool(bool),
    Number(Number),
    String(String),
    Array(Vec<Document>),
    Object(Vec<Member>),
}

/// One key/value pair of an object node.
#[derive(Debug, PartialEq, Eq)]
pub struct Member {
    pub key: String,
    pub value: Document,
}

/// The mathematical value of a [`Document`].
pub enum DocumentView {
    Null,
    Bool(bool),
    Number(Number),
    String(Seq<char>),
    Array(Seq<DocumentView>),
    Object(Seq<MemberView>),
}

/// The mathematical value of a [`Member`].
pub struct MemberView {
    pub key: Seq<char>,
    pub value: DocumentView,
}

/// The values of a vector of documents, element by element.
pub open spec fn items_view(items: Seq<Document>) -> Seq<DocumentView>
    decreases items, 0nat,
{
    Seq::new(
        items.len(),
        |i: int|
            if 0 <= i < items.len() {
                items[i].view()
            } else {
                DocumentView::Null
            },
    )
}

/// The values of a vector of members, element by element.
pub open spec fn members_view(members: Seq<Member>) -> Seq<MemberView>
    decreases members, 0nat,
{
    Seq::new(
        members.len(),
        |i: int|
            if 0 <= i < members.len() {
                members[i].view()
            } else {
                MemberView { key: Seq::empty(), value: DocumentView::Null }
            },
    )
}

impl View for Document {
    type V = DocumentView;

    open spec fn view(&self) -> DocumentView
        decreases self, 1nat,
    {
        match self {
            Document::Null => DocumentView::Null,
            Document::Bool(b) => DocumentView::Bool(*b),
            Document::Number(n) => DocumentView::Number(*n),
            Document::String(s) => DocumentView::String(s@),
            Document::Array(items) => DocumentView::Array(items_view(items@)),
            Document::Object(members) => DocumentView::Object(members_view(members@)),
        }
    }
}

impl View for Member {
    type V = MemberView;

    open spec fn view(&self) -> MemberView
        decreases self, 1nat,
    {
        MemberView { key: self.key@, value: self.value.view() }
    }
}

impl DeepView for Document {
    type V = DocumentView;

    open spec fn deep_view(&self) -> DocumentView {
        self@
    }
}

/// Whether some member of `members` is stored under `key`.
pub open spec fn has_key(members: Seq<MemberView>, key: Seq<char>) -> bool {
    exists|i: int| 0 <= i < members.len() && #[trigger] members[i].key == key
}

/// Whether `i` is the first index of `members` that holds `key`.
pub open spec fn is_position(members: Seq<MemberView>, key: Seq<char>, i: int) -> bool {
    &&& 0 <= i < members.len()
    &&& members[i].key == key
    &&& forall|j: int| 0 <= j < i ==> #[trigger] members[j].key != key
}

/// The first index of `members` that holds `key`, if there is one.
pub open spec fn position(members: Seq<MemberView>, key: Seq<char>) -> Option<int> {
    if has_key(members, key) {
        Some(choose|i: int| is_position(members, key, i))
    } else {
        None
    }
}

/// Whether no key occurs twice among `members`.
pub open spec fn distinct_keys(members: Seq<MemberView>) -> bool {
    forall|i: int, j: int|
        0 <= i < j < members.len() ==> #[trigger] members[i].key != #[trigger] members[j].key
}

/// Whether every document of `items` is well formed.
pub open spec fn all_wf(items: Seq<DocumentView>) -> bool
    decreases items,
{
    forall|i: int| #![trigger items[i]] 0 <= i < items.len() ==> items[i].wf()
}

impl DocumentView {
    /// The members of an object node; no members for any other node.
    pub open spec fn members(self) -> Seq<MemberView> {
        match self {
            DocumentView::Object(members) => members,
            _ => Seq::empty(),
        }
    }

    /// A document is well formed when every object in it, at any depth,
    /// holds each of its keys once.
    pub open spec fn wf(self) -> bool
        decreases self,
    {
        match self {
            DocumentView::Array(items) => all_wf(items),
            DocumentView::Object(members) => {
                &&& distinct_keys(members)
                &&& forall|i: int|
                    #![trigger members[i]]
                    0 <= i < members.len() ==> members[i].value.wf()
            },
            _ => true,
        }
    }

    /// The value an object node stores under `key`. Nodes of other kinds
    /// store nothing.
    pub open spec fn get(self, key: Seq<char>) -> Option<DocumentView> {
        match position(self.members(), key) {
            Some(i) => Some(self.members()[i].value),
            None => None,
        }
    }

    /// The node reached from this one by descending through the keys of
    /// `path` in turn, if every step finds its key.
    pub open spec fn at(self, path: Seq<Seq<char>>) -> Option<DocumentView>
        decreases path.len(),
    {
        if path.len() == 0 {
            Some(self)
        } else {
            match self.get(path[0]) {
                Some(child) => child.at(path.drop_first()),
                None => None,
            }
        }
    }
}

/// `position` finds the first index that holds the key whenever the key is
/// present, and nothing otherwise.
pub proof fn lemma_position(members: Seq<MemberView>, key: Seq<char>)
    ensures
        match position(members, key) {
            Some(i) => is_position(members, key, i),
            None => forall|j: int| 0 <= j < members.len() ==> #[trigger] members[j].key != key,
        },
{
    if has_key(members, key) {
        let i = choose|i: int| 0 <= i < members.len() && #[trigger] members[i].key == key;
        lemma_first_occurrence(members, key, i);
    }
}

proof fn lemma_first_occurrence(members: Seq<MemberView>, key: Seq<char>, i: int)
    requires
        0 <= i < members.len(),
        members[i].key == key,
    ensures
        exists|p: int| is_position(members, key, p),
    decreases i,
{
    if exists|j: int| 0 <= j < i && #[trigger] members[j].key == key {
        let j = choose|j: int| 0 <= j < i && #[trigger] members[j].key == key;
        lemma_first_occurrence(members, key, j);
    } else {
        assert(is_position(members, key, i));
    }
}

/// The first index that holds a key is the one `position` finds.
pub proof fn lemma_position_unique(members: Seq<MemberView>, key: Seq<char>, i: int)
    requires
        is_position(members, key, i),
    ensures
        position(members, key) == Some(i),
{
    lemma_position(members, key);
}

/// Among distinct keys, any index that holds a key is the one `position`
/// finds.
pub proof fn lemma_position_distinct(members: Seq<MemberView>, i: int)
    requires
        distinct_keys(members),
        0 <= i < members.len(),
    ensures
        position(members, members[i].key) == Some(i),
{
    lemma_position(members, members[i].key);
}

/// Finds the first member stored under `key`.
pub fn find_member(members: &Vec<Member>, key: &String) -> (found: Option<usize>)
    ensures
        match found {
            Some(i) => i < members.len() && position(members_view(members@), key@) == Some(
                i as int,
            ),
            None => position(members_view(members@), key@).is_none(),
        },
{
    let mut i: usize = 0;
    while i < members.len()
        invariant
            i <= members.len(),
            forall|j: int| 0 <= j < i ==> #[trigger] members_view(members@)[j].key != key@,
        decreases members.len() - i,
    {
        if members[i].key == *key {
            proof {
                assert(members_view(members@)[i as int].key == key@);
                lemma_position_unique(members_view(members@), key@, i as int);
            }
            return Some(i);
        }
        i += 1;
    }
    None
}

/// Copies a vector of documents, each in depth.
pub fn copy_items(items: &Vec<Document>) -> (copy: Vec<Document>)
    ensures
        items_view(copy@) == items_view(items@),
    decreases items,
{
    let mut copy: Vec<Document> = Vec::new();
    let mut i: usize = 0;
    while i < items.len()
        invariant
            i <= items.len(),
            copy.len() == i,
            forall|j: int| 0 <= j < i ==> (#[trigger] copy@[j])@ == items@[j]@,
        decreases items.len() - i,
    {
        let item = items[i].deep_copy();
        copy.push(item);
        i += 1;
    }
    assert(items_view(copy@) =~= items_view(items@));
    copy
}

/// Copies a vector of members, each value in depth.
pub fn copy_members(members: &Vec<Member>) -> (copy: Vec<Member>)
    ensures
        members_view(copy@) == members_view(members@),
    decreases members,
{
    let mut copy: Vec<Member> = Vec::new();
    let mut i: usize = 0;
    while i < members.len()
        invariant
            i <= members.len(),
            copy.len() == i,
            forall|j: int| 0 <= j < i ==> (#[trigger] copy@[j])@ == members@[j]@,
        decreases members.len() - i,
    {
        let value = members[i].value.deep_copy();
        copy.push(Member { key: members[i].key.clone(), value });
        i += 1;
    }
    assert(members_view(copy@) =~= members_view(members@));
    copy
}

impl Clone for Document {
    fn clone(&self) -> (copy: Self)
        ensures
            copy@ == self@,
    {
        self.deep_copy()
    }
}

impl Clone for Member {
    fn clone(&self) -> (copy: Self)
        ensures
            copy@ == self@,
    {
        Member { key: self.key.clone(), value: self.value.deep_copy() }
    }
}

impl Document {
    /// A copy of this document with the same value at every depth.
    pub fn deep_copy(&self) -> (copy: Document)
        ensures
            copy@ == self@,
        decreases self,
    {
        match self {
            Document::Null => Document::Null,
            Document::Bool(b) => Document::Bool(*b),
            Document::Number(n) => Document::Number(*n),
            Document::String(s) => Document::String(s.clone()),
            Document::Array(items) => Document::Array(copy_items(items)),
            Document::Object(members) => Document::Object(copy_members(members)),
        }
    }

    /// Whether this node is an object.
    pub fn is_object(&self) -> (r: bool)
        ensures
            r == (self@ is Object),
    {
        match self {
            Document::Object(_) => true,
            _ => false,
        }
    }

    /// The value this node stores under `key`: that of the first member with
    /// that key if this is an object, nothing otherwise.
    pub fn get(&self, key: &String) -> (found: Option<&Document>)
        ensures
            match found {
                Some(value) => self@.get(key@) == Some(value@),
                None => self@.get(key@).is_none(),
            },
    {
        match self {
            Document::Object(members) => {
                match find_member(members, key) {
                    Some(i) => {
                        assert(members_view(members@)[i as int].value == members[i as int].value@);
                        Some(&members[i].value)
                    },
                    None => None,
                }
            },
            _ => {
                assert(!has_key(Seq::<MemberView>::empty(), key@));
                None
            },
        }
    }

    /// Whether every object in this document, at any depth, holds each of
    /// its keys once.
    #[verifier::loop_isolation(false)]
    pub fn is_well_formed(&self) -> (r: bool)
        ensures
            r == self@.wf(),
        decreases self,
    {
        match self {
            Document::Array(items) => {
                let mut i: usize = 0;
                while i < items.len()
                    invariant
                        i <= items.len(),
                        forall|j: int| 0 <= j < i ==> (#[trigger] items_view(items@)[j]).wf(),
                    decreases items.len() - i,
                {
                    if !items[i].is_well_formed() {
                        assert(!items_view(items@)[i as int].wf());
                        assert(!all_wf(items_view(items@)));
                        return false;
                    }
                    i += 1;
                }
                assert(all_wf(items_view(items@)));
                true
            },
            Document::Object(members) => {
                let mut i: usize = 0;
                while i < members.len()
                    invariant
                        i <= members.len(),
                        forall|j: int|
                            0 <= j < i ==> (#[trigger] members_view(members@)[j]).value.wf(),
                        forall|a: int, b: int|
                            0 <= a < b < i ==> #[trigger] members_view(members@)[a].key
                                != #[trigger] members_view(members@)[b].key,
                    decreases members.len() - i,
                {
                    if !members[i].value.is_well_formed() {
                        assert(!members_view(members@)[i as int].value.wf());
                        return false;
                    }
                    let mut j: usize = 0;
                    while j < i
                        invariant
                            j <= i < members.len(),
                            forall|a: int|
                                0 <= a < j ==> #[trigger] members_view(members@)[a].key
                                    != members_view(members@)[i as int].key,
                        decreases i - j,
                    {
                        if members[j].key == members[i].key {
                            assert(members_view(members@)[j as int].key == members_view(
                                members@,
                            )[i as int].key);
                            return false;
                        }
                        j += 1;
                    }
                    i += 1;
                }
                true
            },
            _ => true,
        }
    }
}

} // verus!
