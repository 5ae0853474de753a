//! Paired edge mutation: the low-level operations that record one half of a
//! relation on one endpoint record.
//!
//! Each operation resolves both endpoints by username, mutates exactly one
//! edge list of the target record through the edge set operations, and
//! persists the record.  Mutating a single half can leave the table
//! transiently asymmetric; the engine operations pair the two halves and
//! restore symmetry.

use vstd::prelude::*;

use vstd::seq_lib::lemma_seq_contains_after_push;

use crate::channel::{Channel, ChannelModel, OpError};
use crate::edge_ops::{
    add_id_to_vector, lemma_push_no_duplicates, lemma_seq_remove_contains,
    lemma_seq_remove_no_duplicates, remove_id_from_vector, seq_remove,
};
use crate::store::{
    chan_of, first_match_at, has_id, lemma_id_resolves, lemma_name_resolves, lists_wf,
    name_conflict, name_idx, refs_exist, search_channel_by_username, taken, update_channel,
    ChannelStore,
};

verus! {

/// Which of the four edge lists of a record an operation touches.
#[derive(Clone, Copy, Debug, PartialEq, Eq, Structural)]
pub enum EdgeList {
    Follower,
    Banned,
    Followed,
    BannedFrom,
}

/// The chosen edge list of a record.
pub open spec fn get_list(c: ChannelModel, which: EdgeList) -> Seq<u64> {
    match which {
        EdgeList::Follower => c.follower_list,
        EdgeList::Banned => c.banned_list,
        EdgeList::Followed => c.followed_list,
        EdgeList::BannedFrom => c.banned_from_list,
    }
}

/// The record with the chosen edge list replaced.
pub open spec fn set_list(c: ChannelModel, which: EdgeList, l: Seq<u64>) -> ChannelModel {
    match which {
        EdgeList::Follower => ChannelModel { follower_list: l, ..c },
        EdgeList::Banned => ChannelModel { banned_list: l, ..c },
        EdgeList::Followed => ChannelModel { followed_list: l, ..c },
        EdgeList::BannedFrom => ChannelModel { banned_from_list: l, ..c },
    }
}

/// An edge half can be added: both usernames resolve, to distinct records,
/// and the target's list does not yet carry the other record's identifier.
pub open spec fn add_edge_ok(
    s: Seq<ChannelModel>,
    other: Seq<char>,
    target: Seq<char>,
    which: EdgeList,
) -> bool {
    &&& taken(s, other) && taken(s, target)
    &&& chan_of(s, other).id != chan_of(s, target).id
    &&& !get_list(chan_of(s, target), which).contains(chan_of(s, other).id)
}

/// Why an edge half cannot be added.
pub open spec fn add_edge_err(
    s: Seq<ChannelModel>,
    other: Seq<char>,
    target: Seq<char>,
    which: EdgeList,
) -> OpError {
    if !(taken(s, other) && taken(s, target)) {
        OpError::NotFound
    } else if chan_of(s, other).id == chan_of(s, target).id {
        OpError::SelfReference
    } else {
        OpError::AlreadyExists
    }
}

/// The target record after a successful edge-half addition.
pub open spec fn add_edge_updated(
    s: Seq<ChannelModel>,
    other: Seq<char>,
    target: Seq<char>,
    which: EdgeList,
) -> ChannelModel {
    set_list(
        chan_of(s, target),
        which,
        get_list(chan_of(s, target), which).push(chan_of(s, other).id),
    )
}

/// The table after an edge-half addition: unchanged on failure.
pub open spec fn add_edge_next(
    s: Seq<ChannelModel>,
    other: Seq<char>,
    target: Seq<char>,
    which: EdgeList,
) -> Seq<ChannelModel> {
    if add_edge_ok(s, other, target, which) {
        s.update(name_idx(s, target), add_edge_updated(s, other, target, which))
    } else {
        s
    }
}

/// An edge half can be removed: both usernames resolve and the target's
/// list carries the other record's identifier.
pub open spec fn remove_edge_ok(
    s: Seq<ChannelModel>,
    other: Seq<char>,
    target: Seq<char>,
    which: EdgeList,
) -> bool {
    &&& taken(s, other) && taken(s, target)
    &&& get_list(chan_of(s, target), which).contains(chan_of(s, other).id)
}

/// Why an edge half cannot be removed.
pub open spec fn remove_edge_err(
    s: Seq<ChannelModel>,
    other: Seq<char>,
    target: Seq<char>,
    which: EdgeList,
) -> OpError {
    if !(taken(s, other) && taken(s, target)) {
        OpError::NotFound
    } else {
        OpError::NotConnected
    }
}

/// The target record after a successful edge-half removal.
pub open spec fn remove_edge_updated(
    s: Seq<ChannelModel>,
    other: Seq<char>,
    target: Seq<char>,
    which: EdgeList,
) -> ChannelModel {
    set_list(
        chan_of(s, target),
        which,
        seq_remove(get_list(chan_of(s, target), which), chan_of(s, other).id),
    )
}

/// The table after an edge-half removal: unchanged on failure.
pub open spec fn remove_edge_next(
    s: Seq<ChannelModel>,
    other: Seq<char>,
    target: Seq<char>,
    which: EdgeList,
) -> Seq<ChannelModel> {
    if remove_edge_ok(s, other, target, which) {
        s.update(name_idx(s, target), remove_edge_updated(s, other, target, which))
    } else {
        s
    }
}

/// Records one edge half: adds `other`'s identifier to the chosen list of
/// `username`'s record.
fn add_edge(other: &String, username: &String, which: EdgeList, store: &mut ChannelStore) -> (r:
    Result<Channel, OpError>)
    requires
        old(store).inv(),
    ensures
        final(store).inv(),
        final(store).next_id == old(store).next_id,
        final(store)@ == add_edge_next(old(store)@, other@, username@, which),
        add_edge_ok(old(store)@, other@, username@, which) ==> (r matches Ok(c) && c@
            == add_edge_updated(old(store)@, other@, username@, which)),
        !add_edge_ok(old(store)@, other@, username@, which) ==> r == Err::<Channel, OpError>(
            add_edge_err(old(store)@, other@, username@, which),
        ),
{
    let target = match search_channel_by_username(username, store) {
        Some(c) => c,
        None => {
            return Err(OpError::NotFound);
        },
    };
    proof {
        let i = choose|i: int|
            #[trigger] first_match_at(old(store)@, username@, i) && target@ == old(store)@[i];
        lemma_name_resolves(old(store)@, username@, i);
    }
    let other_c = match search_channel_by_username(other, store) {
        Some(c) => c,
        None => {
            return Err(OpError::NotFound);
        },
    };
    proof {
        let i = choose|i: int|
            #[trigger] first_match_at(old(store)@, other@, i) && other_c@ == old(store)@[i];
        lemma_name_resolves(old(store)@, other@, i);
    }
    if other_c.id == target.id {
        return Err(OpError::SelfReference);
    }
    let maybe = match which {
        EdgeList::Follower => add_id_to_vector(other_c.id, &target.follower_list),
        EdgeList::Banned => add_id_to_vector(other_c.id, &target.banned_list),
        EdgeList::Followed => add_id_to_vector(other_c.id, &target.followed_list),
        EdgeList::BannedFrom => add_id_to_vector(other_c.id, &target.banned_from_list),
    };
    let new_list = match maybe {
        Some(l) => l,
        None => {
            return Err(OpError::AlreadyExists);
        },
    };
    let mut updated = target;
    match which {
        EdgeList::Follower => {
            updated.follower_list = new_list;
        },
        EdgeList::Banned => {
            updated.banned_list = new_list;
        },
        EdgeList::Followed => {
            updated.followed_list = new_list;
        },
        EdgeList::BannedFrom => {
            updated.banned_from_list = new_list;
        },
    }
    proof {
        let s0 = old(store)@;
        let t = chan_of(s0, username@);
        let o = chan_of(s0, other@);
        assert(updated@ =~= add_edge_updated(s0, other@, username@, which));
        lemma_seq_contains_after_push(get_list(t, which), o.id, t.id);
        lemma_push_no_duplicates(get_list(t, which), o.id);
        assert(lists_wf(updated@));
        assert forall|x: u64| #[trigger] get_list(t, which).push(o.id).contains(x) implies has_id(
            s0,
            x,
        ) by {
            lemma_seq_contains_after_push(get_list(t, which), o.id, x);
            assert(refs_exist(s0, t));
        }
        assert(refs_exist(s0, updated@));
        assert(!name_conflict(s0, updated@)) by {
            if name_conflict(s0, updated@) {
                let j = choose|j: int|
                    0 <= j < s0.len() && (#[trigger] s0[j]).id != updated@.id && s0[j].username
                        == updated@.username;
                let it = name_idx(s0, username@);
                assert(s0[it] == t);
                if j < it {
                    assert(s0[j].username != s0[it].username);
                } else if it < j {
                    assert(s0[it].username != s0[j].username);
                }
            }
        }
    }
    let res = update_channel(updated, store);
    proof {
        let s0 = old(store)@;
        let t = chan_of(s0, username@);
        lemma_id_resolves(s0, t.id, name_idx(s0, username@));
    }
    res
}

/// Erases one edge half: removes `other`'s identifier from the chosen list
/// of `username`'s record.
fn remove_edge(other: &String, username: &String, which: EdgeList, store: &mut ChannelStore) -> (r:
    Result<Channel, OpError>)
    requires
        old(store).inv(),
    ensures
        final(store).inv(),
        final(store).next_id == old(store).next_id,
        final(store)@ == remove_edge_next(old(store)@, other@, username@, which),
        remove_edge_ok(old(store)@, other@, username@, which) ==> (r matches Ok(c) && c@
            == remove_edge_updated(old(store)@, other@, username@, which)),
        !remove_edge_ok(old(store)@, other@, username@, which) ==> r == Err::<Channel, OpError>(
            remove_edge_err(old(store)@, other@, username@, which),
        ),
{
    let target = match search_channel_by_username(username, store) {
        Some(c) => c,
        None => {
            return Err(OpError::NotFound);
        },
    };
    proof {
        let i = choose|i: int|
            #[trigger] first_match_at(old(store)@, username@, i) && target@ == old(store)@[i];
        lemma_name_resolves(old(store)@, username@, i);
    }
    let other_c = match search_channel_by_username(other, store) {
        Some(c) => c,
        None => {
            return Err(OpError::NotFound);
        },
    };
    proof {
        let i = choose|i: int|
            #[trigger] first_match_at(old(store)@, other@, i) && other_c@ == old(store)@[i];
        lemma_name_resolves(old(store)@, other@, i);
    }
    let maybe = match which {
        EdgeList::Follower => remove_id_from_vector(other_c.id, &target.follower_list),
        EdgeList::Banned => remove_id_from_vector(other_c.id, &target.banned_list),
        EdgeList::Followed => remove_id_from_vector(other_c.id, &target.followed_list),
        EdgeList::BannedFrom => remove_id_from_vector(other_c.id, &target.banned_from_list),
    };
    let new_list = match maybe {
        Some(l) => l,
        None => {
            return Err(OpError::NotConnected);
        },
    };
    let mut updated = target;
    match which {
        EdgeList::Follower => {
            updated.follower_list = new_list;
        },
        EdgeList::Banned => {
            updated.banned_list = new_list;
        },
        EdgeList::Followed => {
            updated.followed_list = new_list;
        },
        EdgeList::BannedFrom => {
            updated.banned_from_list = new_list;
        },
    }
    proof {
        let s0 = old(store)@;
        let t = chan_of(s0, username@);
        let o = chan_of(s0, other@);
        assert(updated@ =~= remove_edge_updated(s0, other@, username@, which));
        lemma_seq_remove_contains(get_list(t, which), o.id);
        lemma_seq_remove_no_duplicates(get_list(t, which), o.id);
        assert(lists_wf(updated@));
        assert forall|x: u64| #[trigger]
            seq_remove(get_list(t, which), o.id).contains(x) implies has_id(s0, x) by {
            assert(get_list(t, which).contains(x));
            assert(refs_exist(s0, t));
        }
        assert(refs_exist(s0, updated@));
        assert(!name_conflict(s0, updated@)) by {
            if name_conflict(s0, updated@) {
                let j = choose|j: int|
                    0 <= j < s0.len() && (#[trigger] s0[j]).id != updated@.id && s0[j].username
                        == updated@.username;
                let it = name_idx(s0, username@);
                assert(s0[it] == t);
                if j < it {
                    assert(s0[j].username != s0[it].username);
                } else if it < j {
                    assert(s0[it].username != s0[j].username);
                }
            }
        }
    }
    let res = update_channel(updated, store);
    proof {
        let s0 = old(store)@;
        let t = chan_of(s0, username@);
        lemma_id_resolves(s0, t.id, name_idx(s0, username@));
    }
    res
}

/// Adds `follower`'s identifier to `username`'s follower list.
pub fn add_follower(follower: &String, username: &String, store: &mut ChannelStore) -> (r: Result<
    Channel,
    OpError,
>)
    requires
        old(store).inv(),
    ensures
        final(store).inv(),
        final(store).next_id == old(store).next_id,
        final(store)@ == add_edge_next(old(store)@, follower@, username@, EdgeList::Follower),
        add_edge_ok(old(store)@, follower@, username@, EdgeList::Follower) ==> (r matches Ok(c)
            && c@ == add_edge_updated(old(store)@, follower@, username@, EdgeList::Follower)),
        !add_edge_ok(old(store)@, follower@, username@, EdgeList::Follower) ==> r == Err::<
            Channel,
            OpError,
        >(add_edge_err(old(store)@, follower@, username@, EdgeList::Follower)),
{
    add_edge(follower, username, EdgeList::Follower, store)
}

/// Removes `follower`'s identifier from `username`'s follower list.
pub fn remove_follower(follower: &String, username: &String, store: &mut ChannelStore) -> (r:
    Result<Channel, OpError>)
    requires
        old(store).inv(),
    ensures
        final(store).inv(),
        final(store).next_id == old(store).next_id,
        final(store)@ == remove_edge_next(old(store)@, follower@, username@, EdgeList::Follower),
        remove_edge_ok(old(store)@, follower@, username@, EdgeList::Follower) ==> (r matches Ok(c)
            && c@ == remove_edge_updated(old(store)@, follower@, username@, EdgeList::Follower)),
        !remove_edge_ok(old(store)@, follower@, username@, EdgeList::Follower) ==> r == Err::<
            Channel,
            OpError,
        >(remove_edge_err(old(store)@, follower@, username@, EdgeList::Follower)),
{
    remove_edge(follower, username, EdgeList::Follower, store)
}

/// Adds `banned`'s identifier to `username`'s banned list.
pub fn add_banned(banned: &String, username: &String, store: &mut ChannelStore) -> (r: Result<
    Channel,
    OpError,
>)
    requires
        old(store).inv(),
    ensures
        final(store).inv(),
        final(store).next_id == old(store).next_id,
        final(store)@ == add_edge_next(old(store)@, banned@, username@, EdgeList::Banned),
        add_edge_ok(old(store)@, banned@, username@, EdgeList::Banned) ==> (r matches Ok(c) && c@
            == add_edge_updated(old(store)@, banned@, username@, EdgeList::Banned)),
        !add_edge_ok(old(store)@, banned@, username@, EdgeList::Banned) ==> r == Err::<
            Channel,
            OpError,
        >(add_edge_err(old(store)@, banned@, username@, EdgeList::Banned)),
{
    add_edge(banned, username, EdgeList::Banned, store)
}

/// Removes `banned`'s identifier from `username`'s banned list.
pub fn remove_banned(banned: &String, username: &String, store: &mut ChannelStore) -> (r: Result<
    Channel,
    OpError,
>)
    requires
        old(store).inv(),
    ensures
        final(store).inv(),
        final(store).next_id == old(store).next_id,
        final(store)@ == remove_edge_next(old(store)@, banned@, username@, EdgeList::Banned),
        remove_edge_ok(old(store)@, banned@, username@, EdgeList::Banned) ==> (r matches Ok(c)
            && c@ == remove_edge_updated(old(store)@, banned@, username@, EdgeList::Banned)),
        !remove_edge_ok(old(store)@, banned@, username@, EdgeList::Banned) ==> r == Err::<
            Channel,
            OpError,
        >(remove_edge_err(old(store)@, banned@, username@, EdgeList::Banned)),
{
    remove_edge(banned, username, EdgeList::Banned, store)
}

/// Adds `followed`'s identifier to `username`'s followed list.
pub fn add_followed(followed: &String, username: &String, store: &mut ChannelStore) -> (r: Result<
    Channel,
    OpError,
>)
    requires
        old(store).inv(),
    ensures
        final(store).inv(),
        final(store).next_id == old(store).next_id,
        final(store)@ == add_edge_next(old(store)@, followed@, username@, EdgeList::Followed),
        add_edge_ok(old(store)@, followed@, username@, EdgeList::Followed) ==> (r matches Ok(c)
            && c@ == add_edge_updated(old(store)@, followed@, username@, EdgeList::Followed)),
        !add_edge_ok(old(store)@, followed@, username@, EdgeList::Followed) ==> r == Err::<
            Channel,
            OpError,
        >(add_edge_err(old(store)@, followed@, username@, EdgeList::Followed)),
{
    add_edge(followed, username, EdgeList::Followed, store)
}

/// Removes `followed`'s identifier from `username`'s followed list.
pub fn remove_followed(followed: &String, username: &String, store: &mut ChannelStore) -> (r:
    Result<Channel, OpError>)
    requires
        old(store).inv(),
    ensures
        final(store).inv(),
        final(store).next_id == old(store).next_id,
        final(store)@ == remove_edge_next(old(store)@, followed@, username@, EdgeList::Followed),
        remove_edge_ok(old(store)@, followed@, username@, EdgeList::Followed) ==> (r matches Ok(c)
            && c@ == remove_edge_updated(old(store)@, followed@, username@, EdgeList::Followed)),
        !remove_edge_ok(old(store)@, followed@, username@, EdgeList::Followed) ==> r == Err::<
            Channel,
            OpError,
        >(remove_edge_err(old(store)@, followed@, username@, EdgeList::Followed)),
{
    remove_edge(followed, username, EdgeList::Followed, store)
}

/// Adds `banned_from`'s identifier to `username`'s banned-from list.
pub fn add_banned_from(banned_from: &String, username: &String, store: &mut ChannelStore) -> (r:
    Result<Channel, OpError>)
    requires
        old(store).inv(),
    ensures
        final(store).inv(),
        final(store).next_id == old(store).next_id,
        final(store)@ == add_edge_next(old(store)@, banned_from@, username@, EdgeList::BannedFrom),
        add_edge_ok(old(store)@, banned_from@, username@, EdgeList::BannedFrom) ==> (r matches Ok(c)
            && c@ == add_edge_updated(old(store)@, banned_from@, username@, EdgeList::BannedFrom)),
        !add_edge_ok(old(store)@, banned_from@, username@, EdgeList::BannedFrom) ==> r == Err::<
            Channel,
            OpError,
        >(add_edge_err(old(store)@, banned_from@, username@, EdgeList::BannedFrom)),
{
    add_edge(banned_from, username, EdgeList::BannedFrom, store)
}

/// Removes `banned_from`'s identifier from `username`'s banned-from list.
pub fn remove_banned_from(banned_from: &String, username: &String, store: &mut ChannelStore) -> (r:
    Result<Channel, OpError>)
    requires
        old(store).inv(),
    ensures
        final(store).inv(),
        final(store).next_id == old(store).next_id,
        final(store)@ == remove_edge_next(
            old(store)@,
            banned_from@,
            username@,
            EdgeList::BannedFrom,
        ),
        remove_edge_ok(old(store)@, banned_from@, username@, EdgeList::BannedFrom) ==> (r matches Ok(
            c,
        ) && c@ == remove_edge_updated(
            old(store)@,
            banned_from@,
            username@,
            EdgeList::BannedFrom,
        )),
        !remove_edge_ok(old(store)@, banned_from@, username@, EdgeList::BannedFrom) ==> r == Err::<
            Channel,
            OpError,
        >(remove_edge_err(old(store)@, banned_from@, username@, EdgeList::BannedFrom)),
{
    remove_edge(banned_from, username, EdgeList::BannedFrom, store)
}

} // verus!
