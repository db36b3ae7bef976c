//! Whether a group counts as unclaimed.

use vstd::prelude::*;
use crate::model::{GroupId, GroupRecord, RunConfig};

verus! {

/// A group is closed when nobody can join it freely or nobody is in it.
pub open spec fn is_closed(group: GroupRecord) -> bool {
    !group.public_entry_allowed || group.member_count == 0
}

/// The availability rule.
///
/// A group is available when it has no owner, carries no lock flag (whatever
/// the flag says), and, if closed groups are to be ignored, is not closed.
pub open spec fn available(group: GroupRecord, config: RunConfig) -> bool {
    &&& group.owner is None
    &&& group.is_locked is None
    &&& (config.ignore_closed_groups ==> !is_closed(group))
}

/// The ids of the available groups among `groups`, in their order.
pub open spec fn available_ids(groups: Seq<GroupRecord>, config: RunConfig) -> Seq<GroupId>
    decreases groups.len(),
{
    if groups.len() == 0 {
        Seq::empty()
    } else if available(groups.last(), config) {
        available_ids(groups.drop_last(), config).push(groups.last().id)
    } else {
        available_ids(groups.drop_last(), config)
    }
}

/// Decides whether `group` is eligible under `config`.
pub fn is_group_available(group: &GroupRecord, config: &RunConfig) -> (eligible: bool)
    ensures
        eligible == available(*group, *config),
{
    if group.owner.is_some() || group.is_locked.is_some() {
        return false;
    }
    if config.ignore_closed_groups && (!group.public_entry_allowed || group.member_count == 0) {
        return false;
    }
    true
}

/// A group that has an owner is never available, whatever else it holds and
/// whatever the configuration says.
pub proof fn lemma_owned_is_unavailable(group: GroupRecord, config: RunConfig)
    requires
        group.owner is Some,
    ensures
        !available(group, config),
{
}

/// A group that carries a lock flag is never available, even when the flag
/// says that the group is not locked.
pub proof fn lemma_lock_flag_is_unavailable(group: GroupRecord, config: RunConfig)
    requires
        group.is_locked is Some,
    ensures
        !available(group, config),
{
}

/// With closed groups not ignored, a group without owner and without lock
/// flag is available.
pub proof fn lemma_unowned_unflagged_is_available(group: GroupRecord, config: RunConfig)
    requires
        group.owner is None,
        group.is_locked is None,
        !config.ignore_closed_groups,
    ensures
        available(group, config),
{
}

/// With closed groups ignored, a group that does not allow public entry is
/// never available, whatever its owner and lock flag.
pub proof fn lemma_no_public_entry_is_unavailable(group: GroupRecord, config: RunConfig)
    requires
        config.ignore_closed_groups,
        !group.public_entry_allowed,
    ensures
        !available(group, config),
{
}

/// With closed groups ignored, a group without members is never available.
pub proof fn lemma_memberless_is_unavailable(group: GroupRecord, config: RunConfig)
    requires
        config.ignore_closed_groups,
        group.member_count == 0,
    ensures
        !available(group, config),
{
}

/// Availability depends on the record and on one switch of the configuration only.
pub proof fn lemma_available_reads_one_switch(group: GroupRecord, a: RunConfig, b: RunConfig)
    requires
        a.ignore_closed_groups == b.ignore_closed_groups,
    ensures
        available(group, a) == available(group, b),
{
}

} // verus!
