//! The exclusion set: the ids of the groups that were already visited.
//!
//! The set lives in memory as the list of ids in the order in which they were
//! added, and is stored as the JSON text of that list. Reading and writing the
//! text is left to the caller; turning text into ids and back is done here, by
//! `serde_json`.

use vstd::prelude::*;
use crate::model::{GroupId, StorageError};

verus! {

/// `serde_json::Error`, the error of both calls below. It is carried from
/// the call to the place where it is turned into a [`StorageError`]; nothing
/// inside it is read.
#[verifier::external_type_specification]
#[verifier::external_body]
pub struct ExJsonError(serde_json::Error);

/// What `serde_json::from_str::<Vec<u32>>` makes of a text: the ids it lists,
/// or nothing where it reports an error.
pub uninterp spec fn json_id_list(text: Seq<char>) -> Option<Seq<u32>>;

/// What `serde_json::to_string` makes of a list of ids: the JSON text, or
/// nothing where it reports an error.
pub uninterp spec fn json_text_of_ids(ids: Seq<u32>) -> Option<Seq<char>>;

/// Calls `serde_json::from_str` for a `Vec<u32>`.
///
/// Trusted: the outcome is a function of the text alone, so it is given the
/// name [`json_id_list`]. Nothing is claimed about which texts are accepted.
#[verifier::external_body]
fn parse_id_list(text: &str) -> (parsed: Result<Vec<GroupId>, serde_json::Error>)
    ensures
        match parsed {
            Ok(ids) => json_id_list(text@) == Some(ids@),
            Err(_) => json_id_list(text@) is None,
        },
{
    serde_json::from_str::<Vec<GroupId>>(text)
}

/// Calls `serde_json::to_string` on a `Vec<u32>`.
///
/// Trusted: the outcome is a function of the ids alone, so it is given the
/// name [`json_text_of_ids`]. Nothing is claimed about the shape of the text,
/// nor that the call succeeds.
#[verifier::external_body]
fn render_id_list(ids: &Vec<GroupId>) -> (rendered: Result<String, serde_json::Error>)
    ensures
        match rendered {
            Ok(text) => json_text_of_ids(ids@) == Some(text@),
            Err(_) => json_text_of_ids(ids@) is None,
        },
{
    serde_json::to_string(ids)
}

/// The list `ids` after `id` was added to the set it stands for: unchanged if
/// `id` is in it, else with `id` at the end.
pub open spec fn inserted(ids: Seq<GroupId>, id: GroupId) -> Seq<GroupId> {
    if ids.contains(id) {
        ids
    } else {
        ids.push(id)
    }
}

/// The ids that a stored form holds. A store that does not exist yet holds
/// none; a text that is no list of ids holds nothing that can be used.
pub open spec fn stored_ids(stored: Option<Seq<char>>) -> Option<Seq<GroupId>> {
    match stored {
        None => Some(Seq::empty()),
        Some(text) => json_id_list(text),
    }
}

/// The view of an optional text.
pub open spec fn text_view(stored: Option<&str>) -> Option<Seq<char>> {
    match stored {
        None => None,
        Some(text) => Some(text@),
    }
}

/// The set of visited group ids. Ids are only ever added.
#[derive(Clone, Debug, PartialEq, Eq)]
pub struct ExclusionSet {
    ids: Vec<GroupId>,
}

impl View for ExclusionSet {
    type V = Seq<GroupId>;

    /// The ids, oldest first.
    closed spec fn view(&self) -> Seq<GroupId> {
        self.ids@
    }
}

impl ExclusionSet {
    /// The ids as a set.
    pub open spec fn members(&self) -> Set<GroupId> {
        self@.to_set()
    }

    /// The empty set.
    pub fn new() -> (set: ExclusionSet)
        ensures
            set@ == Seq::<GroupId>::empty(),
    {
        ExclusionSet { ids: Vec::new() }
    }

    /// The set that holds exactly the listed ids, in the listed order.
    pub fn from_ids(ids: Vec<GroupId>) -> (set: ExclusionSet)
        ensures
            set@ == ids@,
    {
        ExclusionSet { ids }
    }

    /// The ids, oldest first.
    pub fn ids(&self) -> (ids: &Vec<GroupId>)
        ensures
            ids@ == self@,
    {
        &self.ids
    }

    /// The number of stored entries.
    pub fn len(&self) -> (n: usize)
        ensures
            n == self@.len(),
    {
        self.ids.len()
    }

    /// Whether `id` was added before.
    pub fn contains(&self, id: GroupId) -> (found: bool)
        ensures
            found == self@.contains(id),
    {
        let mut i: usize = 0;
        while i < self.ids.len()
            invariant
                i <= self.ids@.len(),
                forall|j: int| 0 <= j < i ==> self.ids@[j] != id,
            decreases self.ids@.len() - i,
        {
            if self.ids[i] == id {
                return true;
            }
            i += 1;
        }
        false
    }

    /// Adds `id` unless it is there already, and tells whether it was added.
    pub fn insert(&mut self, id: GroupId) -> (added: bool)
        ensures
            final(self)@ == inserted(old(self)@, id),
            final(self).members() == old(self).members().insert(id),
            added == !old(self)@.contains(id),
    {
        proof {
            lemma_insert_is_set_insert(self@, id);
        }
        if self.contains(id) {
            false
        } else {
            self.ids.push(id);
            true
        }
    }

    /// Reads the set from its stored form. `None` stands for a store that does
    /// not exist yet, and gives the empty set.
    pub fn open(stored: Option<&str>) -> (opened: Result<ExclusionSet, StorageError>)
        ensures
            match stored_ids(text_view(stored)) {
                Some(ids) => opened is Ok && opened->Ok_0@ == ids,
                None => opened == Err::<ExclusionSet, StorageError>(StorageError::Unreadable),
            },
    {
        match stored {
            None => Ok(ExclusionSet::new()),
            Some(text) => match parse_id_list(text) {
                Ok(ids) => Ok(ExclusionSet::from_ids(ids)),
                Err(_) => Err(StorageError::Unreadable),
            },
        }
    }

    /// The text to store for this set.
    pub fn to_json(&self) -> (written: Result<String, StorageError>)
        ensures
            match json_text_of_ids(self@) {
                Some(text) => written is Ok && written->Ok_0@ == text,
                None => written == Err::<String, StorageError>(StorageError::WriteFailed),
            },
    {
        match render_id_list(&self.ids) {
            Ok(text) => Ok(text),
            Err(_) => Err(StorageError::WriteFailed),
        }
    }
}

/// Whether the stored form of the set holds `group_id`.
pub fn is_group_excluded(stored: Option<&str>, group_id: GroupId) -> (excluded: Result<
    bool,
    StorageError,
>)
    ensures
        excluded == match stored_ids(text_view(stored)) {
            Some(ids) => Ok::<bool, StorageError>(ids.contains(group_id)),
            None => Err(StorageError::Unreadable),
        },
{
    match ExclusionSet::open(stored) {
        Ok(set) => Ok(set.contains(group_id)),
        Err(e) => Err(e),
    }
}

/// The text to store once `group_id` is in the set whose stored form is given.
pub fn exclude_group(stored: Option<&str>, group_id: GroupId) -> (written: Result<
    String,
    StorageError,
>)
    ensures
        match stored_ids(text_view(stored)) {
            None => written == Err::<String, StorageError>(StorageError::Unreadable),
            Some(ids) => match json_text_of_ids(inserted(ids, group_id)) {
                Some(text) => written is Ok && written->Ok_0@ == text,
                None => written == Err::<String, StorageError>(StorageError::WriteFailed),
            },
        },
{
    match ExclusionSet::open(stored) {
        Ok(set) => {
            let mut set = set;
            set.insert(group_id);
            set.to_json()
        },
        Err(e) => Err(e),
    }
}

/// After an id was added it is in the set.
pub proof fn lemma_inserted_contains(ids: Seq<GroupId>, id: GroupId)
    ensures
        inserted(ids, id).contains(id),
{
    if !ids.contains(id) {
        assert(ids.push(id)[ids.len() as int] == id);
    }
}

/// Adding an id a second time changes nothing: the set holds it, and holds no
/// second entry for it.
pub proof fn lemma_insert_is_idempotent(ids: Seq<GroupId>, id: GroupId)
    ensures
        inserted(inserted(ids, id), id) == inserted(ids, id),
        inserted(inserted(ids, id), id).contains(id),
        inserted(inserted(ids, id), id).len() <= ids.len() + 1,
{
    lemma_inserted_contains(ids, id);
}

/// Adding an id keeps every id that was there, in its place.
pub proof fn lemma_insert_keeps_entries(ids: Seq<GroupId>, id: GroupId)
    ensures
        ids.is_prefix_of(inserted(ids, id)),
        forall|other: GroupId| ids.contains(other) ==> inserted(ids, id).contains(other),
{
    assert forall|other: GroupId| ids.contains(other) implies inserted(ids, id).contains(
        other,
    ) by {
        let i = choose|i: int| 0 <= i < ids.len() && ids[i] == other;
        assert(inserted(ids, id)[i] == other);
    }
}

/// Adding an id adds that id and no other.
pub proof fn lemma_insert_adds_only_id(ids: Seq<GroupId>, id: GroupId, other: GroupId)
    ensures
        inserted(ids, id).contains(other) <==> (ids.contains(other) || other == id),
{
    lemma_inserted_contains(ids, id);
    lemma_insert_keeps_entries(ids, id);
    if inserted(ids, id).contains(other) && other != id {
        let i = choose|i: int| 0 <= i < inserted(ids, id).len() && inserted(ids, id)[i] == other;
        assert(ids[i] == other);
    }
}

/// As a set, the list after `id` was added is the set before with `id` put in.
pub proof fn lemma_insert_is_set_insert(ids: Seq<GroupId>, id: GroupId)
    ensures
        inserted(ids, id).to_set() == ids.to_set().insert(id),
{
    assert forall|other: GroupId|
        inserted(ids, id).to_set().contains(other) <==> ids.to_set().insert(id).contains(
            other,
        ) by {
        lemma_insert_adds_only_id(ids, id, other);
    }
    assert(inserted(ids, id).to_set() =~= ids.to_set().insert(id));
}

/// A list without repeated ids has none after an id was added.
pub proof fn lemma_insert_keeps_distinct(ids: Seq<GroupId>, id: GroupId)
    requires
        ids.no_duplicates(),
    ensures
        inserted(ids, id).no_duplicates(),
{
}

} // verus!
