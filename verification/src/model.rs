//! Records exchanged with the group data provider, and the run configuration.
//!
//! The fields are public and carry no invariant: a record is exactly what the
//! provider sent. In contracts a record stands for itself.

use vstd::prelude::*;

verus! {

/// The platform's primary key of a group.
pub type GroupId = u32;

/// An account, as the provider describes it. Carried along, never interpreted.
#[derive(Clone, Debug, PartialEq, Eq)]
pub struct UserRef {
    pub user_id: u32,
    pub username: String,
    pub display_name: String,
    pub has_verified_badge: bool,
}

/// The message pinned to a group. Carried along, never interpreted.
#[derive(Clone, Debug, PartialEq, Eq)]
pub struct Shout {
    pub body: String,
    pub poster: UserRef,
    pub created: String,
    pub updated: String,
}

/// The full metadata of one group.
#[derive(Clone, Debug, PartialEq, Eq)]
pub struct GroupRecord {
    pub id: GroupId,
    pub name: String,
    pub description: String,
    /// The owning account. A group that has one is claimed.
    pub owner: Option<UserRef>,
    pub shout: Option<Shout>,
    pub member_count: u32,
    pub is_builders_club_only: bool,
    pub public_entry_allowed: bool,
    /// Present only on groups the platform has flagged; any value counts.
    pub is_locked: Option<bool>,
    pub has_verified_badge: bool,
}

/// One line of a keyword search result.
#[derive(Clone, Debug, PartialEq, Eq)]
pub struct GroupSummary {
    pub id: GroupId,
    pub name: String,
    pub description: String,
    pub member_count: u32,
    pub public_entry_allowed: bool,
    pub has_verified_badge: bool,
}

/// One page of keyword search results.
#[derive(Clone, Debug, PartialEq, Eq)]
pub struct SearchPage {
    pub items: Vec<GroupSummary>,
    /// Handed back verbatim to ask for the following page; absent on the last page.
    pub next_cursor: Option<String>,
    pub previous_cursor: Option<String>,
}

/// The provider's answer to a search request, as it came.
#[derive(Clone, Debug, PartialEq, Eq)]
pub struct SearchAnswer {
    /// The number of errors that the answer lists, where it holds a list of
    /// errors at all.
    pub errors: Option<usize>,
    /// The listed groups, where the answer holds any list of groups.
    pub items: Option<Vec<GroupSummary>>,
    pub next_cursor: Option<String>,
    pub previous_cursor: Option<String>,
}

/// What a search answer amounts to: a page, unless the answer holds a list
/// of errors, even an empty one, or no list of groups.
pub open spec fn search_outcome(answer: SearchAnswer) -> Result<SearchPage, FetchError> {
    match (answer.errors, answer.items) {
        (None, Some(items)) => Ok(
            SearchPage {
                items,
                next_cursor: answer.next_cursor,
                previous_cursor: answer.previous_cursor,
            },
        ),
        _ => Err(FetchError::Provider),
    }
}

impl SearchAnswer {
    /// The page that the answer holds, or the failure that it stands for.
    pub fn into_page(self) -> (page: Result<SearchPage, FetchError>)
        ensures
            page == search_outcome(self),
    {
        match (self.errors, self.items) {
            (None, Some(items)) => Ok(
                SearchPage {
                    items,
                    next_cursor: self.next_cursor,
                    previous_cursor: self.previous_cursor,
                },
            ),
            _ => Err(FetchError::Provider),
        }
    }
}

/// The two kinds of declared relationship between groups.
#[derive(Clone, Copy, Debug, PartialEq, Eq, Structural)]
pub enum RelationKind {
    Ally,
    Enemy,
}

/// One page of a group's relationships of one kind.
#[derive(Clone, Debug, PartialEq, Eq)]
pub struct RelationshipPage {
    pub subject_group_id: GroupId,
    pub kind: RelationKind,
    pub related_groups: Vec<GroupRecord>,
    pub total_count: u32,
    pub next_row_index: u32,
}

/// What a run was asked to do. It does not change while the run lasts.
#[derive(Clone, Debug, PartialEq, Eq)]
pub struct RunConfig {
    /// Lower bound of the ids drawn at random, inclusive.
    pub id_range_min: GroupId,
    /// Upper bound of the ids drawn at random, inclusive.
    pub id_range_max: GroupId,
    /// When present, candidates come from a keyword search instead.
    pub search_keyword: Option<String>,
    /// Leave out groups that cannot be joined or have no members.
    pub ignore_closed_groups: bool,
    /// Keep searching after a successful walk.
    pub repeat: bool,
}

impl RunConfig {
    /// A second copy of the configuration.
    pub fn duplicate(&self) -> (copy: RunConfig)
        ensures
            copy == *self,
    {
        let search_keyword = match &self.search_keyword {
            Some(keyword) => Some(keyword.clone()),
            None => None,
        };
        RunConfig {
            id_range_min: self.id_range_min,
            id_range_max: self.id_range_max,
            search_keyword,
            ignore_closed_groups: self.ignore_closed_groups,
            repeat: self.repeat,
        }
    }
}

/// Why a request to the group data provider gave no record.
#[derive(Clone, Copy, Debug, PartialEq, Eq, Structural)]
pub enum FetchError {
    /// The request did not get through, or the answer could not be read.
    Transport,
    /// The platform knows no such resource.
    NotFound,
    /// The answer was a list of errors.
    Provider,
}

/// Why the exclusion set could not be used.
#[derive(Clone, Copy, Debug, PartialEq, Eq, Structural)]
pub enum StorageError {
    /// The stored text is not a list of group ids.
    Unreadable,
    /// The set could not be turned into text, or the text could not be written.
    WriteFailed,
}

/// A failure that ends the run.
#[derive(Clone, Copy, Debug, PartialEq, Eq, Structural)]
pub enum FatalError {
    /// A keyword search was answered with a failure.
    Provider(FetchError),
    /// The exclusion set is out of order, so repeats can no longer be ruled out.
    Storage(StorageError),
}

impl FatalError {
    /// A line for the user that names the failure.
    pub fn message(&self) -> (text: String)
        ensures
            text@ == match *self {
                FatalError::Provider(FetchError::Transport) => "keyword search failed: no readable answer"@,
                FatalError::Provider(FetchError::NotFound) => "keyword search failed: not found"@,
                FatalError::Provider(FetchError::Provider) => "keyword search failed: the provider reported errors"@,
                FatalError::Storage(StorageError::Unreadable) => "exclusion set cannot be read"@,
                FatalError::Storage(StorageError::WriteFailed) => "exclusion set cannot be written"@,
            },
    {
        match self {
            FatalError::Provider(FetchError::Transport) => "keyword search failed: no readable answer".to_owned(),
            FatalError::Provider(FetchError::NotFound) => "keyword search failed: not found".to_owned(),
            FatalError::Provider(FetchError::Provider) => "keyword search failed: the provider reported errors".to_owned(),
            FatalError::Storage(StorageError::Unreadable) => "exclusion set cannot be read".to_owned(),
            FatalError::Storage(StorageError::WriteFailed) => "exclusion set cannot be written".to_owned(),
        }
    }
}

} // verus!
