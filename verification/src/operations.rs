//! The relationship engine: the operations the transport layer calls.
//!
//! Each paired operation resolves both usernames, mutates one edge list on
//! each endpoint record through the low-level operations, and leaves the
//! table well-formed and symmetric.  Cascading deletion unwinds every edge
//! that references a channel before the record itself is removed.

use vstd::prelude::*;

use vstd::seq_lib::lemma_seq_contains_after_push;

use crate::channel::{Channel, ChannelModel, OpError};
use crate::edge_ops::{
    contains_id, lemma_seq_remove_absent, lemma_seq_remove_contains, lemma_seq_remove_first,
    seq_remove,
};
use crate::relations::{
    add_edge_err, add_edge_ok, add_edge_updated, get_list, remove_edge_err, remove_edge_ok,
    remove_edge_updated, set_list, EdgeList,
};
use crate::relations::{add_banned, add_banned_from, add_follower, add_followed};
use crate::relations::{remove_banned, remove_banned_from, remove_follower, remove_followed};
use crate::store::{
    chan_by_id, chan_of, create_channel, delete_channel, first_match_at, fresh_channel, has_id,
    id_idx, lemma_id_resolves, lemma_name_resolves, lists_wf, name_conflict, name_idx, refs_exist,
    search_channel_by_id, search_channel_by_username, symmetric, taken, unreferenced,
    update_channel, wf, ChannelStore,
};

verus! {

/// The edge list that stores the other half of a relation.
pub open spec fn dual(which: EdgeList) -> EdgeList {
    match which {
        EdgeList::Follower => EdgeList::Followed,
        EdgeList::Followed => EdgeList::Follower,
        EdgeList::Banned => EdgeList::BannedFrom,
        EdgeList::BannedFrom => EdgeList::Banned,
    }
}

/// A whole relation can be recorded: its first half can.
pub open spec fn link_ok(
    s: Seq<ChannelModel>,
    actor: Seq<char>,
    target: Seq<char>,
    which: EdgeList,
) -> bool {
    add_edge_ok(s, actor, target, which)
}

/// The actor's record after a whole relation is recorded: the target's
/// identifier appended to the actor's dual list.
pub open spec fn link_actor_after(
    s: Seq<ChannelModel>,
    actor: Seq<char>,
    target: Seq<char>,
    which: EdgeList,
) -> ChannelModel {
    set_list(
        chan_of(s, actor),
        dual(which),
        get_list(chan_of(s, actor), dual(which)).push(chan_of(s, target).id),
    )
}

/// The table after a whole relation is recorded: both halves appended;
/// unchanged on failure.
pub open spec fn link_next(
    s: Seq<ChannelModel>,
    actor: Seq<char>,
    target: Seq<char>,
    which: EdgeList,
) -> Seq<ChannelModel> {
    if link_ok(s, actor, target, which) {
        s.update(name_idx(s, target), add_edge_updated(s, actor, target, which)).update(
            name_idx(s, actor),
            link_actor_after(s, actor, target, which),
        )
    } else {
        s
    }
}

/// A whole relation can be erased: its first half can.
pub open spec fn unlink_ok(
    s: Seq<ChannelModel>,
    actor: Seq<char>,
    target: Seq<char>,
    which: EdgeList,
) -> bool {
    remove_edge_ok(s, actor, target, which)
}

/// The actor's record after a whole relation is erased.
pub open spec fn unlink_actor_after(
    s: Seq<ChannelModel>,
    actor: Seq<char>,
    target: Seq<char>,
    which: EdgeList,
) -> ChannelModel {
    set_list(
        chan_of(s, actor),
        dual(which),
        seq_remove(get_list(chan_of(s, actor), dual(which)), chan_of(s, target).id),
    )
}

/// The table after a whole relation is erased: both halves removed;
/// unchanged on failure.
pub open spec fn unlink_next(
    s: Seq<ChannelModel>,
    actor: Seq<char>,
    target: Seq<char>,
    which: EdgeList,
) -> Seq<ChannelModel> {
    if unlink_ok(s, actor, target, which) {
        s.update(name_idx(s, target), remove_edge_updated(s, actor, target, which)).update(
            name_idx(s, actor),
            unlink_actor_after(s, actor, target, which),
        )
    } else {
        s
    }
}

/// Both usernames resolve and the target's follower list carries the
/// follower's identifier.
pub open spec fn is_follower_spec(
    s: Seq<ChannelModel>,
    follower: Seq<char>,
    followed: Seq<char>,
) -> bool {
    &&& taken(s, follower) && taken(s, followed)
    &&& chan_of(s, followed).follower_list.contains(chan_of(s, follower).id)
}

/// Both usernames resolve and the judge's banned list carries the victim's
/// identifier.
pub open spec fn is_banned_spec(s: Seq<ChannelModel>, victim: Seq<char>, judge: Seq<char>) -> bool {
    &&& taken(s, victim) && taken(s, judge)
    &&& chan_of(s, judge).banned_list.contains(chan_of(s, victim).id)
}

/// Two distinct records carry two distinct identifiers and usernames.
pub proof fn lemma_distinct_records(s: Seq<ChannelModel>, i: int, j: int)
    requires
        wf(s),
        0 <= i < s.len(),
        0 <= j < s.len(),
        i != j,
    ensures
        s[i].id != s[j].id,
        s[i].username != s[j].username,
{
    if i < j {
        assert(s[i].id != s[j].id && s[i].username != s[j].username);
    } else {
        assert(s[j].id != s[i].id && s[j].username != s[i].username);
    }
}

/// Recording both halves of one relation keeps the table symmetric.
proof fn lemma_symmetric_link(s: Seq<ChannelModel>, ia: int, ib: int, which: EdgeList)
    requires
        wf(s),
        symmetric(s),
        0 <= ia < s.len(),
        0 <= ib < s.len(),
        ia != ib,
        which == EdgeList::Follower || which == EdgeList::Banned,
    ensures
        symmetric(
            s.update(ib, set_list(s[ib], which, get_list(s[ib], which).push(s[ia].id))).update(
                ia,
                set_list(s[ia], dual(which), get_list(s[ia], dual(which)).push(s[ib].id)),
            ),
        ),
{
    let aid = s[ia].id;
    let bid = s[ib].id;
    let s2 = s.update(ib, set_list(s[ib], which, get_list(s[ib], which).push(aid))).update(
        ia,
        set_list(s[ia], dual(which), get_list(s[ia], dual(which)).push(bid)),
    );
    assert forall|i: int, j: int|
        #![trigger s2[i], s2[j]]
        0 <= i < s2.len() && 0 <= j < s2.len() implies {
        &&& (s2[i].followed_list.contains(s2[j].id) <==> s2[j].follower_list.contains(s2[i].id))
        &&& (s2[i].banned_list.contains(s2[j].id) <==> s2[j].banned_from_list.contains(s2[i].id))
    } by {
        if i != j {
            lemma_distinct_records(s, i, j);
        }
        if i != ia {
            lemma_distinct_records(s, i, ia);
        }
        if i != ib {
            lemma_distinct_records(s, i, ib);
        }
        if j != ia {
            lemma_distinct_records(s, j, ia);
        }
        if j != ib {
            lemma_distinct_records(s, j, ib);
        }
        if which == EdgeList::Follower {
            lemma_seq_contains_after_push(s[ia].followed_list, bid, s[j].id);
            lemma_seq_contains_after_push(s[ia].followed_list, bid, s[i].id);
            lemma_seq_contains_after_push(s[ib].follower_list, aid, s[j].id);
            lemma_seq_contains_after_push(s[ib].follower_list, aid, s[i].id);
        } else {
            lemma_seq_contains_after_push(s[ib].banned_list, aid, s[j].id);
            lemma_seq_contains_after_push(s[ib].banned_list, aid, s[i].id);
            lemma_seq_contains_after_push(s[ia].banned_from_list, bid, s[j].id);
            lemma_seq_contains_after_push(s[ia].banned_from_list, bid, s[i].id);
        }
    }
}

/// Erasing both halves of one relation keeps the table symmetric.
proof fn lemma_symmetric_unlink(s: Seq<ChannelModel>, ia: int, ib: int, which: EdgeList)
    requires
        wf(s),
        symmetric(s),
        0 <= ia < s.len(),
        0 <= ib < s.len(),
        ia != ib,
        which == EdgeList::Follower || which == EdgeList::Banned,
    ensures
        symmetric(
            s.update(ib, set_list(s[ib], which, seq_remove(get_list(s[ib], which), s[ia].id))).update(
                ia,
                set_list(s[ia], dual(which), seq_remove(get_list(s[ia], dual(which)), s[ib].id)),
            ),
        ),
{
    let aid = s[ia].id;
    let bid = s[ib].id;
    let s2 = s.update(ib, set_list(s[ib], which, seq_remove(get_list(s[ib], which), aid))).update(
        ia,
        set_list(s[ia], dual(which), seq_remove(get_list(s[ia], dual(which)), bid)),
    );
    assert forall|i: int, j: int|
        #![trigger s2[i], s2[j]]
        0 <= i < s2.len() && 0 <= j < s2.len() implies {
        &&& (s2[i].followed_list.contains(s2[j].id) <==> s2[j].follower_list.contains(s2[i].id))
        &&& (s2[i].banned_list.contains(s2[j].id) <==> s2[j].banned_from_list.contains(s2[i].id))
    } by {
        if i != j {
            lemma_distinct_records(s, i, j);
        }
        if i != ia {
            lemma_distinct_records(s, i, ia);
        }
        if i != ib {
            lemma_distinct_records(s, i, ib);
        }
        if j != ia {
            lemma_distinct_records(s, j, ia);
        }
        if j != ib {
            lemma_distinct_records(s, j, ib);
        }
        if which == EdgeList::Follower {
            lemma_seq_remove_contains(s[ia].followed_list, bid);
            lemma_seq_remove_contains(s[ib].follower_list, aid);
        } else {
            lemma_seq_remove_contains(s[ib].banned_list, aid);
            lemma_seq_remove_contains(s[ia].banned_from_list, bid);
        }
    }
}

/// The exec counterpart of `dual`.
fn dual_list(which: EdgeList) -> (d: EdgeList)
    ensures
        d == dual(which),
{
    match which {
        EdgeList::Follower => EdgeList::Followed,
        EdgeList::Followed => EdgeList::Follower,
        EdgeList::Banned => EdgeList::BannedFrom,
        EdgeList::BannedFrom => EdgeList::Banned,
    }
}

/// Records one whole relation: first the half on the target's record, then
/// the reciprocal half on the actor's record.  Under a symmetric table the
/// second half cannot fail once the first succeeded.
fn link(actor: &String, target: &String, which: EdgeList, store: &mut ChannelStore) -> (r: Result<
    Channel,
    OpError,
>)
    requires
        old(store).inv(),
        symmetric(old(store)@),
        which == EdgeList::Follower || which == EdgeList::Banned,
    ensures
        final(store).inv(),
        symmetric(final(store)@),
        final(store).next_id == old(store).next_id,
        final(store)@ == link_next(old(store)@, actor@, target@, which),
        link_ok(old(store)@, actor@, target@, which) ==> (r matches Ok(c) && c@
            == link_actor_after(old(store)@, actor@, target@, which)),
        !link_ok(old(store)@, actor@, target@, which) ==> r == Err::<Channel, OpError>(
            add_edge_err(old(store)@, actor@, target@, which),
        ),
{
    let first = match which {
        EdgeList::Follower => add_follower(actor, target, store),
        _ => add_banned(actor, target, store),
    };
    match first {
        Err(e) => Err(e),
        Ok(_) => {
            let ghost s0 = old(store)@;
            let ghost ia = name_idx(s0, actor@);
            let ghost ib = name_idx(s0, target@);
            let ghost s1 = store@;
            proof {
                assert(add_edge_ok(s0, actor@, target@, which));
                assert(0 <= ib < s0.len() && s0[ib].username == target@);
                assert(0 <= ia < s0.len() && s0[ia].username == actor@);
                assert(ia != ib) by {
                    if ia == ib {
                        assert(chan_of(s0, actor@).id == chan_of(s0, target@).id);
                    }
                }
                assert(s1 == s0.update(ib, add_edge_updated(s0, actor@, target@, which)));
                assert(s1[ia] == s0[ia]);
                assert(s1[ib].username == target@ && s1[ib].id == s0[ib].id);
                lemma_name_resolves(s1, actor@, ia);
                lemma_name_resolves(s1, target@, ib);
                // the reciprocal half is still unrecorded: by symmetry of the
                // starting table
                assert(!get_list(chan_of(s1, actor@), dual(which)).contains(
                    chan_of(s1, target@).id,
                )) by {
                    lemma_distinct_records(s0, ia, ib);
                    if which == EdgeList::Follower {
                        assert(s0[ia].followed_list.contains(s0[ib].id)
                            <==> s0[ib].follower_list.contains(s0[ia].id));
                    } else {
                        assert(s0[ib].banned_list.contains(s0[ia].id)
                            <==> s0[ia].banned_from_list.contains(s0[ib].id));
                    }
                }
                assert(add_edge_ok(s1, target@, actor@, dual(which)));
            }
            let dw = dual_list(which);
            let second = match dw {
                EdgeList::Followed => add_followed(target, actor, store),
                _ => add_banned_from(target, actor, store),
            };
            proof {
                let s2 = store@;
                assert(s2 == s1.update(ia, add_edge_updated(s1, target@, actor@, dual(which))));
                assert(chan_of(s1, actor@) == s0[ia] && chan_of(s1, target@).id == s0[ib].id);
                assert(add_edge_updated(s1, target@, actor@, dual(which)) == link_actor_after(
                    s0,
                    actor@,
                    target@,
                    which,
                ));
                assert(s2 == link_next(s0, actor@, target@, which));
                assert(get_list(s0[ib], which) == get_list(chan_of(s0, target@), which));
                assert(add_edge_updated(s0, actor@, target@, which) == set_list(
                    s0[ib],
                    which,
                    get_list(s0[ib], which).push(s0[ia].id),
                ));
                assert(link_actor_after(s0, actor@, target@, which) == set_list(
                    s0[ia],
                    dual(which),
                    get_list(s0[ia], dual(which)).push(s0[ib].id),
                ));
                lemma_symmetric_link(s0, ia, ib, which);
                assert(symmetric(s2));
            }
            second
        },
    }
}

/// Erases one whole relation: first the half on the target's record, then
/// the reciprocal half on the actor's record.
fn unlink(actor: &String, target: &String, which: EdgeList, store: &mut ChannelStore) -> (r: Result<
    Channel,
    OpError,
>)
    requires
        old(store).inv(),
        symmetric(old(store)@),
        which == EdgeList::Follower || which == EdgeList::Banned,
    ensures
        final(store).inv(),
        symmetric(final(store)@),
        final(store).next_id == old(store).next_id,
        final(store)@ == unlink_next(old(store)@, actor@, target@, which),
        unlink_ok(old(store)@, actor@, target@, which) ==> (r matches Ok(c) && c@
            == unlink_actor_after(old(store)@, actor@, target@, which)),
        !unlink_ok(old(store)@, actor@, target@, which) ==> r == Err::<Channel, OpError>(
            remove_edge_err(old(store)@, actor@, target@, which),
        ),
{
    let first = match which {
        EdgeList::Follower => remove_follower(actor, target, store),
        _ => remove_banned(actor, target, store),
    };
    match first {
        Err(e) => Err(e),
        Ok(_) => {
            let ghost s0 = old(store)@;
            let ghost ia = name_idx(s0, actor@);
            let ghost ib = name_idx(s0, target@);
            let ghost s1 = store@;
            proof {
                assert(remove_edge_ok(s0, actor@, target@, which));
                assert(0 <= ib < s0.len() && s0[ib].username == target@);
                assert(0 <= ia < s0.len() && s0[ia].username == actor@);
                // a recorded edge half never names the record itself, so the
                // two endpoints are distinct
                assert(ia != ib) by {
                    if ia == ib {
                        assert(lists_wf(s0[ib]));
                        assert(get_list(s0[ib], which).contains(s0[ib].id));
                    }
                }
                lemma_distinct_records(s0, ia, ib);
                assert(s1 == s0.update(ib, remove_edge_updated(s0, actor@, target@, which)));
                assert(s1[ia] == s0[ia]);
                assert(s1[ib].username == target@ && s1[ib].id == s0[ib].id);
                lemma_name_resolves(s1, actor@, ia);
                lemma_name_resolves(s1, target@, ib);
                // the reciprocal half is recorded: by symmetry of the
                // starting table
                assert(get_list(chan_of(s1, actor@), dual(which)).contains(
                    chan_of(s1, target@).id,
                )) by {
                    if which == EdgeList::Follower {
                        assert(s0[ia].followed_list.contains(s0[ib].id)
                            <==> s0[ib].follower_list.contains(s0[ia].id));
                    } else {
                        assert(s0[ib].banned_list.contains(s0[ia].id)
                            <==> s0[ia].banned_from_list.contains(s0[ib].id));
                    }
                }
                assert(remove_edge_ok(s1, target@, actor@, dual(which)));
            }
            let dw = dual_list(which);
            let second = match dw {
                EdgeList::Followed => remove_followed(target, actor, store),
                _ => remove_banned_from(target, actor, store),
            };
            proof {
                let s2 = store@;
                assert(s2 == s1.update(ia, remove_edge_updated(s1, target@, actor@, dual(which))));
                assert(chan_of(s1, actor@) == s0[ia] && chan_of(s1, target@).id == s0[ib].id);
                assert(remove_edge_updated(s1, target@, actor@, dual(which)) == unlink_actor_after(
                    s0,
                    actor@,
                    target@,
                    which,
                ));
                assert(s2 == unlink_next(s0, actor@, target@, which));
                assert(remove_edge_updated(s0, actor@, target@, which) == set_list(
                    s0[ib],
                    which,
                    seq_remove(get_list(s0[ib], which), s0[ia].id),
                ));
                assert(unlink_actor_after(s0, actor@, target@, which) == set_list(
                    s0[ia],
                    dual(which),
                    seq_remove(get_list(s0[ia], dual(which)), s0[ib].id),
                ));
                lemma_symmetric_unlink(s0, ia, ib, which);
                assert(symmetric(s2));
            }
            second
        },
    }
}

/// Creates a channel under a username not yet taken.
pub fn create(username: &String, store: &mut ChannelStore) -> (r: Result<Channel, OpError>)
    requires
        old(store).inv(),
        old(store).next_id < u64::MAX,
    ensures
        final(store).inv(),
        symmetric(old(store)@) ==> symmetric(final(store)@),
        taken(old(store)@, username@) ==> {
            &&& r == Err::<Channel, OpError>(OpError::AlreadyExists)
            &&& final(store)@ == old(store)@
            &&& final(store).next_id == old(store).next_id
        },
        !taken(old(store)@, username@) ==> {
            &&& (r matches Ok(c) && c@ == fresh_channel(old(store).next_id, username@))
            &&& final(store)@ == old(store)@.push(fresh_channel(old(store).next_id, username@))
            &&& final(store).next_id == old(store).next_id + 1
        },
{
    create_channel(username, store)
}

/// Resolves a username to the full current record.
pub fn search_username(username: &String, store: &ChannelStore) -> (r: Option<Channel>)
    ensures
        match r {
            Some(c) => exists|i: int|
                #[trigger] first_match_at(store@, username@, i) && c@ == store@[i],
            None => !taken(store@, username@),
        },
{
    search_channel_by_username(username, store)
}

/// Resolves a durable identifier to the full current record.
pub fn search_id(id: u64, store: &ChannelStore) -> (r: Option<Channel>)
    ensures
        match r {
            Some(c) => exists|i: int|
                0 <= i < store@.len() && c@ == #[trigger] store@[i] && c@.id == id,
            None => !has_id(store@, id),
        },
{
    search_channel_by_id(id, store)
}

/// The rename resolves and no other record already carries the new
/// username.
pub open spec fn rename_ok(s: Seq<ChannelModel>, name: Seq<char>, newname: Seq<char>) -> bool {
    &&& taken(s, name)
    &&& forall|j: int|
        0 <= j < s.len() && (#[trigger] s[j]).id != chan_of(s, name).id ==> s[j].username != newname
}

/// Why a rename fails.
pub open spec fn rename_err(s: Seq<ChannelModel>, name: Seq<char>) -> OpError {
    if !taken(s, name) {
        OpError::NotFound
    } else {
        OpError::AlreadyExists
    }
}

/// The renamed record: only the username changes; the durable identifier
/// and all four edge lists stay.
pub open spec fn rename_updated(
    s: Seq<ChannelModel>,
    name: Seq<char>,
    newname: Seq<char>,
) -> ChannelModel {
    ChannelModel { username: newname, ..chan_of(s, name) }
}

/// The table after a rename: unchanged on failure.
pub open spec fn rename_next(
    s: Seq<ChannelModel>,
    name: Seq<char>,
    newname: Seq<char>,
) -> Seq<ChannelModel> {
    if rename_ok(s, name, newname) {
        s.update(name_idx(s, name), rename_updated(s, name, newname))
    } else {
        s
    }
}

/// Rewrites the username of one record.  Edge lists reference durable
/// identifiers, so no other record changes.
pub fn change_username(
    username: &String,
    updated_username: &String,
    store: &mut ChannelStore,
) -> (r: Result<Channel, OpError>)
    requires
        old(store).inv(),
        symmetric(old(store)@),
    ensures
        final(store).inv(),
        symmetric(final(store)@),
        final(store).next_id == old(store).next_id,
        final(store)@ == rename_next(old(store)@, username@, updated_username@),
        rename_ok(old(store)@, username@, updated_username@) ==> (r matches Ok(c) && c@
            == rename_updated(old(store)@, username@, updated_username@)),
        !rename_ok(old(store)@, username@, updated_username@) ==> r == Err::<Channel, OpError>(
            rename_err(old(store)@, username@),
        ),
{
    let mut channel = match search_channel_by_username(username, store) {
        Some(c) => c,
        None => {
            return Err(OpError::NotFound);
        },
    };
    proof {
        let i = choose|i: int|
            #[trigger] first_match_at(old(store)@, username@, i) && channel@ == old(store)@[i];
        lemma_name_resolves(old(store)@, username@, i);
    }
    channel.username = updated_username.clone();
    proof {
        let s0 = old(store)@;
        let t = chan_of(s0, username@);
        assert(channel@ =~= rename_updated(s0, username@, updated_username@));
        assert(lists_wf(channel@));
        assert(refs_exist(s0, channel@));
        assert(name_conflict(s0, channel@) <==> !rename_ok(s0, username@, updated_username@)) by {
            if name_conflict(s0, channel@) {
                let j = choose|j: int|
                    0 <= j < s0.len() && (#[trigger] s0[j]).id != channel@.id && s0[j].username
                        == channel@.username;
                assert(!rename_ok(s0, username@, updated_username@));
            }
            if !rename_ok(s0, username@, updated_username@) {
                let j = choose|j: int|
                    0 <= j < s0.len() && (#[trigger] s0[j]).id != chan_of(s0, username@).id && s0[
                        j
                    ].username == updated_username@;
                assert(name_conflict(s0, channel@));
            }
        }
    }
    let res = update_channel(channel, store);
    proof {
        let s0 = old(store)@;
        let t = chan_of(s0, username@);
        lemma_id_resolves(s0, t.id, name_idx(s0, username@));
        if rename_ok(s0, username@, updated_username@) {
            let k = name_idx(s0, username@);
            let s2 = store@;
            assert(s2 == s0.update(k, rename_updated(s0, username@, updated_username@)));
            // only a username changed: every edge list and identifier is as
            // before, so symmetry carries over
            assert forall|i: int, j: int|
                #![trigger s2[i], s2[j]]
                0 <= i < s2.len() && 0 <= j < s2.len() implies {
                &&& (s2[i].followed_list.contains(s2[j].id) <==> s2[j].follower_list.contains(
                    s2[i].id,
                ))
                &&& (s2[i].banned_list.contains(s2[j].id) <==> s2[j].banned_from_list.contains(
                    s2[i].id,
                ))
            } by {
                assert(s2[i].id == s0[i].id && s2[i].followed_list == s0[i].followed_list && s2[
                    i
                ].follower_list == s0[i].follower_list && s2[i].banned_list == s0[i].banned_list
                    && s2[i].banned_from_list == s0[i].banned_from_list);
                assert(s2[j].id == s0[j].id && s2[j].followed_list == s0[j].followed_list && s2[
                    j
                ].follower_list == s0[j].follower_list && s2[j].banned_list == s0[j].banned_list
                    && s2[j].banned_from_list == s0[j].banned_from_list);
            }
        }
    }
    res
}

/// Records a follow relation: `followed` gains `follower` in its follower
/// list, `follower` gains `followed` in its followed list.
pub fn follow(follower: &String, followed: &String, store: &mut ChannelStore) -> (r: Result<
    Channel,
    OpError,
>)
    requires
        old(store).inv(),
        symmetric(old(store)@),
    ensures
        final(store).inv(),
        symmetric(final(store)@),
        final(store).next_id == old(store).next_id,
        final(store)@ == link_next(old(store)@, follower@, followed@, EdgeList::Follower),
        link_ok(old(store)@, follower@, followed@, EdgeList::Follower) ==> (r matches Ok(c) && c@
            == link_actor_after(old(store)@, follower@, followed@, EdgeList::Follower)),
        !link_ok(old(store)@, follower@, followed@, EdgeList::Follower) ==> r == Err::<
            Channel,
            OpError,
        >(add_edge_err(old(store)@, follower@, followed@, EdgeList::Follower)),
{
    link(follower, followed, EdgeList::Follower, store)
}

/// Erases a follow relation.
pub fn unfollow(follower: &String, followed: &String, store: &mut ChannelStore) -> (r: Result<
    Channel,
    OpError,
>)
    requires
        old(store).inv(),
        symmetric(old(store)@),
    ensures
        final(store).inv(),
        symmetric(final(store)@),
        final(store).next_id == old(store).next_id,
        final(store)@ == unlink_next(old(store)@, follower@, followed@, EdgeList::Follower),
        unlink_ok(old(store)@, follower@, followed@, EdgeList::Follower) ==> (r matches Ok(c) && c@
            == unlink_actor_after(old(store)@, follower@, followed@, EdgeList::Follower)),
        !unlink_ok(old(store)@, follower@, followed@, EdgeList::Follower) ==> r == Err::<
            Channel,
            OpError,
        >(remove_edge_err(old(store)@, follower@, followed@, EdgeList::Follower)),
{
    unlink(follower, followed, EdgeList::Follower, store)
}

/// Records a ban relation: `judge` gains `victim` in its banned list,
/// `victim` gains `judge` in its banned-from list.
pub fn ban(judge: &String, victim: &String, store: &mut ChannelStore) -> (r: Result<
    Channel,
    OpError,
>)
    requires
        old(store).inv(),
        symmetric(old(store)@),
    ensures
        final(store).inv(),
        symmetric(final(store)@),
        final(store).next_id == old(store).next_id,
        final(store)@ == link_next(old(store)@, victim@, judge@, EdgeList::Banned),
        link_ok(old(store)@, victim@, judge@, EdgeList::Banned) ==> (r matches Ok(c) && c@
            == link_actor_after(old(store)@, victim@, judge@, EdgeList::Banned)),
        !link_ok(old(store)@, victim@, judge@, EdgeList::Banned) ==> r == Err::<Channel, OpError>(
            add_edge_err(old(store)@, victim@, judge@, EdgeList::Banned),
        ),
{
    link(victim, judge, EdgeList::Banned, store)
}

/// Erases a ban relation.
pub fn unban(judge: &String, victim: &String, store: &mut ChannelStore) -> (r: Result<
    Channel,
    OpError,
>)
    requires
        old(store).inv(),
        symmetric(old(store)@),
    ensures
        final(store).inv(),
        symmetric(final(store)@),
        final(store).next_id == old(store).next_id,
        final(store)@ == unlink_next(old(store)@, victim@, judge@, EdgeList::Banned),
        unlink_ok(old(store)@, victim@, judge@, EdgeList::Banned) ==> (r matches Ok(c) && c@
            == unlink_actor_after(old(store)@, victim@, judge@, EdgeList::Banned)),
        !unlink_ok(old(store)@, victim@, judge@, EdgeList::Banned) ==> r == Err::<Channel, OpError>(
            remove_edge_err(old(store)@, victim@, judge@, EdgeList::Banned),
        ),
{
    unlink(victim, judge, EdgeList::Banned, store)
}

/// A record with every occurrence of `id` taken out of its four edge lists.
pub open spec fn strip_model(c: ChannelModel, id: u64) -> ChannelModel {
    ChannelModel {
        follower_list: seq_remove(c.follower_list, id),
        banned_list: seq_remove(c.banned_list, id),
        followed_list: seq_remove(c.followed_list, id),
        banned_from_list: seq_remove(c.banned_from_list, id),
        ..c
    }
}

/// A record with all four edge lists emptied.
pub open spec fn emptied(c: ChannelModel) -> ChannelModel {
    ChannelModel {
        follower_list: Seq::empty(),
        banned_list: Seq::empty(),
        followed_list: Seq::empty(),
        banned_from_list: Seq::empty(),
        ..c
    }
}

/// Unwinds, one edge at a time, every relation recorded on the chosen list
/// of this channel's record: the list ends empty, and each far-side record
/// loses this channel's identifier from the dual list.
#[verifier::loop_isolation(false)]
#[verifier::rlimit(30)]
fn cascade_unlink(channel: Channel, which: EdgeList, store: &mut ChannelStore) -> (r: Result<
    Channel,
    OpError,
>)
    requires
        old(store).inv(),
        symmetric(old(store)@),
        has_id(old(store)@, channel@.id),
        chan_by_id(old(store)@, channel@.id) == channel@,
    ensures
        final(store).inv(),
        symmetric(final(store)@),
        final(store).next_id == old(store).next_id,
        final(store)@.len() == old(store)@.len(),
        final(store)@[id_idx(old(store)@, channel@.id)] == set_list(
            old(store)@[id_idx(old(store)@, channel@.id)],
            which,
            Seq::empty(),
        ),
        forall|j: int|
            0 <= j < old(store)@.len() && j != id_idx(old(store)@, channel@.id) ==> final(store)@[j]
                == set_list(
                #[trigger] old(store)@[j],
                dual(which),
                seq_remove(get_list(old(store)@[j], dual(which)), channel@.id),
            ),
        r matches Ok(c) && c@ == final(store)@[id_idx(old(store)@, channel@.id)],
{
    let ghost s0 = old(store)@;
    let ghost cid = channel@.id;
    let ghost ia = id_idx(s0, cid);
    let ghost list = get_list(s0[ia], which);
    proof {
        assert(0 <= ia < s0.len() && s0[ia].id == cid);
        assert(s0[ia] == channel@);
        assert(lists_wf(s0[ia]));
        assert(!list.contains(cid));
        assert(list.no_duplicates());
        assert(set_list(s0[ia], which, list.skip(0)) =~= s0[ia]);
    }
    let n = match which {
        EdgeList::Follower => channel.follower_list.len(),
        EdgeList::Banned => channel.banned_list.len(),
        EdgeList::Followed => channel.followed_list.len(),
        EdgeList::BannedFrom => channel.banned_from_list.len(),
    };
    proof {
        assert(n == list.len());
    }
    let mut k: usize = 0;
    while k < n
        invariant
            k <= n,
            store.inv(),
            symmetric(store@),
            store.next_id == old(store).next_id,
            store@.len() == s0.len(),
            store@[ia] == set_list(s0[ia], which, list.skip(k as int)),
            forall|j: int|
                0 <= j < s0.len() && j != ia ==> store@[j] == (if list.subrange(
                    0,
                    k as int,
                ).contains((#[trigger] s0[j]).id) {
                    set_list(s0[j], dual(which), seq_remove(get_list(s0[j], dual(which)), cid))
                } else {
                    s0[j]
                }),
        decreases n - k,
    {
        let fid = match which {
            EdgeList::Follower => channel.follower_list[k],
            EdgeList::Banned => channel.banned_list[k],
            EdgeList::Followed => channel.followed_list[k],
            EdgeList::BannedFrom => channel.banned_from_list[k],
        };
        let ghost cur = store@;
        proof {
            assert(fid == list[k as int]);
            assert(list.skip(k as int)[0] == fid);
            assert(get_list(cur[ia], which) == list.skip(k as int));
            assert(get_list(cur[ia], which).contains(fid));
            assert(refs_exist(cur, cur[ia]));
            assert(has_id(cur, fid)) by {
                match which {
                    EdgeList::Follower => assert(cur[ia].follower_list.contains(fid)),
                    EdgeList::Banned => assert(cur[ia].banned_list.contains(fid)),
                    EdgeList::Followed => assert(cur[ia].followed_list.contains(fid)),
                    EdgeList::BannedFrom => assert(cur[ia].banned_from_list.contains(fid)),
                }
            }
        }
        let fc = match search_channel_by_id(fid, store) {
            Some(c) => c,
            None => {
                proof {
                    assert(false);
                }
                return Err(OpError::NotFound);
            },
        };
        let ghost ji = choose|i: int| 0 <= i < cur.len() && fc@ == #[trigger] cur[i] && fc@.id == fid;
        proof {
            assert(0 <= ji < cur.len() && fc@ == cur[ji] && fc@.id == fid);
            assert(fid != cid);
            assert(ji != ia) by {
                if ji == ia {
                    assert(cur[ia].id == cid);
                }
            }
            lemma_name_resolves(cur, fc@.username, ji);
            assert(cur[ia].username == s0[ia].username);
            lemma_name_resolves(cur, s0[ia].username, ia);
            lemma_distinct_records(cur, ia, ji);
            assert(!list.subrange(0, k as int).contains(fid)) by {
                if list.subrange(0, k as int).contains(fid) {
                    let q = choose|q: int|
                        0 <= q < k && #[trigger] list.subrange(0, k as int)[q] == fid;
                    assert(list[q] == fid && list[k as int] == fid);
                }
            }
            assert(cur[ji] == s0[ji]);
            // the reciprocal half is recorded on the far side: the table is
            // symmetric at every step of the cascade
            assert(cur[ia].followed_list.contains(cur[ji].id) <==> cur[ji].follower_list.contains(
                cur[ia].id,
            ));
            assert(cur[ji].followed_list.contains(cur[ia].id) <==> cur[ia].follower_list.contains(
                cur[ji].id,
            ));
            assert(cur[ia].banned_list.contains(cur[ji].id) <==> cur[ji].banned_from_list.contains(
                cur[ia].id,
            ));
            assert(cur[ji].banned_list.contains(cur[ia].id) <==> cur[ia].banned_from_list.contains(
                cur[ji].id,
            ));
            match which {
                EdgeList::Follower => {
                    assert(remove_edge_ok(cur, fc@.username, s0[ia].username, EdgeList::Follower));
                },
                EdgeList::Banned => {
                    assert(remove_edge_ok(cur, fc@.username, s0[ia].username, EdgeList::Banned));
                },
                EdgeList::Followed => {
                    assert(cur[ji].follower_list.contains(cid));
                    assert(remove_edge_ok(cur, s0[ia].username, fc@.username, EdgeList::Follower));
                },
                EdgeList::BannedFrom => {
                    assert(cur[ji].banned_list.contains(cid));
                    assert(remove_edge_ok(cur, s0[ia].username, fc@.username, EdgeList::Banned));
                },
            }
        }
        let res = match which {
            EdgeList::Follower => unlink(&fc.username, &channel.username, EdgeList::Follower, store),
            EdgeList::Banned => unlink(&fc.username, &channel.username, EdgeList::Banned, store),
            EdgeList::Followed => unlink(
                &channel.username,
                &fc.username,
                EdgeList::Follower,
                store,
            ),
            EdgeList::BannedFrom => unlink(&channel.username, &fc.username, EdgeList::Banned, store),
        };
        proof {
            let cur2 = store@;
            lemma_seq_remove_first(list.skip(k as int));
            assert(list.skip(k as int).drop_first() =~= list.skip(k as int + 1));
            assert(seq_remove(list.skip(k as int), fid) == list.skip(k as int + 1));
            match which {
                EdgeList::Follower => {
                    assert(cur2 == cur.update(
                        ia,
                        remove_edge_updated(cur, fc@.username, s0[ia].username, EdgeList::Follower),
                    ).update(
                        ji,
                        unlink_actor_after(cur, fc@.username, s0[ia].username, EdgeList::Follower),
                    ));
                },
                EdgeList::Banned => {
                    assert(cur2 == cur.update(
                        ia,
                        remove_edge_updated(cur, fc@.username, s0[ia].username, EdgeList::Banned),
                    ).update(
                        ji,
                        unlink_actor_after(cur, fc@.username, s0[ia].username, EdgeList::Banned),
                    ));
                },
                EdgeList::Followed => {
                    assert(cur2 == cur.update(
                        ji,
                        remove_edge_updated(cur, s0[ia].username, fc@.username, EdgeList::Follower),
                    ).update(
                        ia,
                        unlink_actor_after(cur, s0[ia].username, fc@.username, EdgeList::Follower),
                    ));
                },
                EdgeList::BannedFrom => {
                    assert(cur2 == cur.update(
                        ji,
                        remove_edge_updated(cur, s0[ia].username, fc@.username, EdgeList::Banned),
                    ).update(
                        ia,
                        unlink_actor_after(cur, s0[ia].username, fc@.username, EdgeList::Banned),
                    ));
                },
            }
            assert(cur2[ia] =~= set_list(s0[ia], which, list.skip(k as int + 1)));
            assert(cur2[ji] =~= set_list(
                s0[ji],
                dual(which),
                seq_remove(get_list(s0[ji], dual(which)), cid),
            ));
            assert(list.subrange(0, k as int + 1) =~= list.subrange(0, k as int).push(
                list[k as int],
            ));
            assert forall|j: int|
                0 <= j < s0.len() && j != ia implies cur2[j] == (if list.subrange(
                0,
                k as int + 1,
            ).contains((#[trigger] s0[j]).id) {
                set_list(s0[j], dual(which), seq_remove(get_list(s0[j], dual(which)), cid))
            } else {
                s0[j]
            }) by {
                lemma_seq_contains_after_push(
                    list.subrange(0, k as int),
                    list[k as int],
                    s0[j].id,
                );
                if j != ji {
                    assert(cur2[j] == cur[j]);
                    if s0[j].id == fid {
                        lemma_distinct_records(s0, j, ji);
                        assert(s0[ji].id == fid);
                        assert(false);
                    }
                }
            }
        }
        k = k + 1;
    }
    proof {
        assert(list.skip(n as int) =~= Seq::<u64>::empty());
        assert(list.subrange(0, n as int) =~= list);
        assert forall|j: int| 0 <= j < s0.len() && j != ia implies store@[j] == set_list(
            #[trigger] s0[j],
            dual(which),
            seq_remove(get_list(s0[j], dual(which)), cid),
        ) by {
            if !list.contains(s0[j].id) {
                // no edge half on this record: by symmetry its dual list never
                // named this channel, so removal changes nothing
                assert(store@[j] == s0[j]);
                assert(s0[ia].followed_list.contains(s0[j].id)
                    <==> s0[j].follower_list.contains(s0[ia].id));
                assert(s0[j].followed_list.contains(s0[ia].id)
                    <==> s0[ia].follower_list.contains(s0[j].id));
                assert(s0[ia].banned_list.contains(s0[j].id)
                    <==> s0[j].banned_from_list.contains(s0[ia].id));
                assert(s0[j].banned_list.contains(s0[ia].id)
                    <==> s0[ia].banned_from_list.contains(s0[j].id));
                assert(!get_list(s0[j], dual(which)).contains(cid)) by {
                    match which {
                        EdgeList::Follower => assert(!s0[j].followed_list.contains(cid)),
                        EdgeList::Banned => assert(!s0[j].banned_from_list.contains(cid)),
                        EdgeList::Followed => assert(!s0[j].follower_list.contains(cid)),
                        EdgeList::BannedFrom => assert(!s0[j].banned_list.contains(cid)),
                    }
                }
                lemma_seq_remove_absent(get_list(s0[j], dual(which)), cid);
                assert(set_list(s0[j], dual(which), get_list(s0[j], dual(which))) =~= s0[j]);
            }
        }
    }
    let own_after = match search_channel_by_username(&channel.username, store) {
        Some(c) => c,
        None => {
            proof {
                assert(store@[ia].username == channel@.username);
                assert(taken(store@, channel@.username));
                assert(false);
            }
            return Err(OpError::NotFound);
        },
    };
    proof {
        let i = choose|i: int|
            #[trigger] first_match_at(store@, channel@.username, i) && own_after@ == store@[i];
        lemma_name_resolves(store@, channel@.username, i);
        assert(store@[ia].username == channel@.username);
        lemma_name_resolves(store@, channel@.username, ia);
        assert(own_after@ == store@[ia]);
    }
    Ok(own_after)
}

/// Unwinds every follow relation recorded in this channel's follower list:
/// each follower loses this channel from its followed list, and the
/// follower list ends empty.
pub fn remove_all_followers(channel: Channel, store: &mut ChannelStore) -> (r: Result<
    Channel,
    OpError,
>)
    requires
        old(store).inv(),
        symmetric(old(store)@),
        has_id(old(store)@, channel@.id),
        chan_by_id(old(store)@, channel@.id) == channel@,
    ensures
        final(store).inv(),
        symmetric(final(store)@),
        final(store).next_id == old(store).next_id,
        final(store)@.len() == old(store)@.len(),
        final(store)@[id_idx(old(store)@, channel@.id)] == (ChannelModel {
            follower_list: Seq::empty(),
            ..old(store)@[id_idx(old(store)@, channel@.id)]
        }),
        forall|j: int|
            0 <= j < old(store)@.len() && j != id_idx(old(store)@, channel@.id) ==> final(store)@[j]
                == (ChannelModel {
                followed_list: seq_remove((#[trigger] old(store)@[j]).followed_list, channel@.id),
                ..old(store)@[j]
            }),
        r matches Ok(c) && c@ == final(store)@[id_idx(old(store)@, channel@.id)],
{
    cascade_unlink(channel, EdgeList::Follower, store)
}

/// Unwinds every follow relation recorded in this channel's followed list:
/// each followed channel loses this channel from its follower list, and the
/// followed list ends empty.
pub fn remove_all_followed(channel: Channel, store: &mut ChannelStore) -> (r: Result<
    Channel,
    OpError,
>)
    requires
        old(store).inv(),
        symmetric(old(store)@),
        has_id(old(store)@, channel@.id),
        chan_by_id(old(store)@, channel@.id) == channel@,
    ensures
        final(store).inv(),
        symmetric(final(store)@),
        final(store).next_id == old(store).next_id,
        final(store)@.len() == old(store)@.len(),
        final(store)@[id_idx(old(store)@, channel@.id)] == (ChannelModel {
            followed_list: Seq::empty(),
            ..old(store)@[id_idx(old(store)@, channel@.id)]
        }),
        forall|j: int|
            0 <= j < old(store)@.len() && j != id_idx(old(store)@, channel@.id) ==> final(store)@[j]
                == (ChannelModel {
                follower_list: seq_remove((#[trigger] old(store)@[j]).follower_list, channel@.id),
                ..old(store)@[j]
            }),
        r matches Ok(c) && c@ == final(store)@[id_idx(old(store)@, channel@.id)],
{
    cascade_unlink(channel, EdgeList::Followed, store)
}

/// Unwinds every ban relation recorded in this channel's banned list: each
/// banned channel loses this channel from its banned-from list, and the
/// banned list ends empty.
pub fn remove_all_banned(channel: Channel, store: &mut ChannelStore) -> (r: Result<
    Channel,
    OpError,
>)
    requires
        old(store).inv(),
        symmetric(old(store)@),
        has_id(old(store)@, channel@.id),
        chan_by_id(old(store)@, channel@.id) == channel@,
    ensures
        final(store).inv(),
        symmetric(final(store)@),
        final(store).next_id == old(store).next_id,
        final(store)@.len() == old(store)@.len(),
        final(store)@[id_idx(old(store)@, channel@.id)] == (ChannelModel {
            banned_list: Seq::empty(),
            ..old(store)@[id_idx(old(store)@, channel@.id)]
        }),
        forall|j: int|
            0 <= j < old(store)@.len() && j != id_idx(old(store)@, channel@.id) ==> final(store)@[j]
                == (ChannelModel {
                banned_from_list: seq_remove(
                    (#[trigger] old(store)@[j]).banned_from_list,
                    channel@.id,
                ),
                ..old(store)@[j]
            }),
        r matches Ok(c) && c@ == final(store)@[id_idx(old(store)@, channel@.id)],
{
    cascade_unlink(channel, EdgeList::Banned, store)
}

/// Unwinds every ban relation recorded in this channel's banned-from list:
/// each judge loses this channel from its banned list, and the banned-from
/// list ends empty.
pub fn remove_all_banned_from(channel: Channel, store: &mut ChannelStore) -> (r: Result<
    Channel,
    OpError,
>)
    requires
        old(store).inv(),
        symmetric(old(store)@),
        has_id(old(store)@, channel@.id),
        chan_by_id(old(store)@, channel@.id) == channel@,
    ensures
        final(store).inv(),
        symmetric(final(store)@),
        final(store).next_id == old(store).next_id,
        final(store)@.len() == old(store)@.len(),
        final(store)@[id_idx(old(store)@, channel@.id)] == (ChannelModel {
            banned_from_list: Seq::empty(),
            ..old(store)@[id_idx(old(store)@, channel@.id)]
        }),
        forall|j: int|
            0 <= j < old(store)@.len() && j != id_idx(old(store)@, channel@.id) ==> final(store)@[j]
                == (ChannelModel {
                banned_list: seq_remove((#[trigger] old(store)@[j]).banned_list, channel@.id),
                ..old(store)@[j]
            }),
        r matches Ok(c) && c@ == final(store)@[id_idx(old(store)@, channel@.id)],
{
    cascade_unlink(channel, EdgeList::BannedFrom, store)
}

/// Deletes a channel: first cascades over all four edge lists so that no
/// surviving record references the channel, then removes the record itself.
/// The returned record shows the state at removal: all four lists empty.
#[verifier::rlimit(30)]
pub fn delete(username: &String, store: &mut ChannelStore) -> (r: Result<Channel, OpError>)
    requires
        old(store).inv(),
        symmetric(old(store)@),
    ensures
        final(store).inv(),
        symmetric(final(store)@),
        final(store).next_id == old(store).next_id,
        !taken(old(store)@, username@) ==> {
            &&& r == Err::<Channel, OpError>(OpError::NotFound)
            &&& final(store)@ == old(store)@
        },
        taken(old(store)@, username@) ==> {
            let s0 = old(store)@;
            let ia = name_idx(s0, username@);
            let cid = s0[ia].id;
            &&& (r matches Ok(c) && c@ == emptied(s0[ia]))
            &&& final(store)@.len() == s0.len() - 1
            &&& (forall|j: int|
                0 <= j < ia ==> final(store)@[j] == strip_model(#[trigger] s0[j], cid))
            &&& (forall|j: int|
                ia <= j < final(store)@.len() ==> final(store)@[j] == strip_model(
                    #[trigger] s0[j + 1],
                    cid,
                ))
            &&& !taken(final(store)@, username@)
            &&& !has_id(final(store)@, cid)
        },
{
    let channel = match search_channel_by_username(username, store) {
        Some(c) => c,
        None => {
            return Err(OpError::NotFound);
        },
    };
    let ghost s0 = old(store)@;
    let ghost ia = name_idx(s0, username@);
    let ghost cid = channel@.id;
    proof {
        let i = choose|i: int|
            #[trigger] first_match_at(s0, username@, i) && channel@ == s0[i];
        lemma_name_resolves(s0, username@, i);
        lemma_id_resolves(s0, cid, ia);
    }
    let c1 = match remove_all_followers(channel, store) {
        Ok(c) => c,
        Err(e) => {
            proof {
                assert(false);
            }
            return Err(e);
        },
    };
    let ghost s1 = store@;
    proof {
        assert(s1[ia].id == cid && wf(s1));
        lemma_id_resolves(s1, cid, ia);
    }
    let c2 = match remove_all_followed(c1, store) {
        Ok(c) => c,
        Err(e) => {
            proof {
                assert(false);
            }
            return Err(e);
        },
    };
    let ghost s2 = store@;
    proof {
        assert(s2[ia].id == cid && wf(s2));
        lemma_id_resolves(s2, cid, ia);
    }
    let c3 = match remove_all_banned(c2, store) {
        Ok(c) => c,
        Err(e) => {
            proof {
                assert(false);
            }
            return Err(e);
        },
    };
    let ghost s3 = store@;
    proof {
        assert(s3[ia].id == cid && wf(s3));
        lemma_id_resolves(s3, cid, ia);
    }
    let c4 = match remove_all_banned_from(c3, store) {
        Ok(c) => c,
        Err(e) => {
            proof {
                assert(false);
            }
            return Err(e);
        },
    };
    let ghost s4 = store@;
    proof {
        assert(s4[ia] =~= emptied(s0[ia]));
        assert forall|j: int| 0 <= j < s0.len() && j != ia implies s4[j] == strip_model(
            #[trigger] s0[j],
            cid,
        ) by {
            assert(s1[j] == ChannelModel {
                followed_list: seq_remove(s0[j].followed_list, cid),
                ..s0[j]
            });
            assert(s2[j] == ChannelModel { follower_list: seq_remove(s1[j].follower_list, cid), ..s1[j] });
            assert(s3[j] == ChannelModel {
                banned_from_list: seq_remove(s2[j].banned_from_list, cid),
                ..s2[j]
            });
            assert(s4[j] == ChannelModel { banned_list: seq_remove(s3[j].banned_list, cid), ..s3[j] });
            assert(s4[j] =~= strip_model(s0[j], cid));
        }
        assert(s4[ia].username == username@);
        lemma_name_resolves(s4, username@, ia);
        assert forall|j: int| 0 <= j < s4.len() implies {
            let c = #[trigger] s4[j];
            &&& !c.follower_list.contains(cid)
            &&& !c.banned_list.contains(cid)
            &&& !c.followed_list.contains(cid)
            &&& !c.banned_from_list.contains(cid)
        } by {
            if j == ia {
            } else {
                lemma_seq_remove_contains(s0[j].follower_list, cid);
                lemma_seq_remove_contains(s0[j].banned_list, cid);
                lemma_seq_remove_contains(s0[j].followed_list, cid);
                lemma_seq_remove_contains(s0[j].banned_from_list, cid);
            }
        }
        assert(unreferenced(s4, cid));
        assert(chan_of(s4, username@).id == cid);
    }
    let removed = match delete_channel(username, store) {
        Ok(c) => c,
        Err(e) => {
            proof {
                assert(false);
            }
            return Err(e);
        },
    };
    proof {
        let sf = store@;
        assert(sf == s4.remove(ia));
        assert(removed@ == s4[ia]);
        assert forall|j: int| 0 <= j < ia implies sf[j] == strip_model(#[trigger] s0[j], cid) by {
            assert(sf[j] == s4[j]);
        }
        assert forall|j: int| ia <= j < sf.len() implies sf[j] == strip_model(
            #[trigger] s0[j + 1],
            cid,
        ) by {
            assert(sf[j] == s4[j + 1]);
        }
        assert(!taken(sf, username@)) by {
            if taken(sf, username@) {
                let j = choose|j: int| 0 <= j < sf.len() && (#[trigger] sf[j]).username == username@;
                let orig = if j < ia {
                    j
                } else {
                    j + 1
                };
                assert(sf[j] == strip_model(s0[orig], cid));
                lemma_distinct_records(s0, orig, ia);
            }
        }
        assert(!has_id(sf, cid)) by {
            if has_id(sf, cid) {
                let j = choose|j: int| 0 <= j < sf.len() && (#[trigger] sf[j]).id == cid;
                let orig = if j < ia {
                    j
                } else {
                    j + 1
                };
                assert(sf[j] == strip_model(s0[orig], cid));
                lemma_distinct_records(s0, orig, ia);
            }
        }
    }
    Ok(removed)
}

/// Tests whether `follower` currently follows `followed`; absence of either
/// party answers `false`, never an error.
pub fn is_follower(follower: &String, followed: &String, store: &ChannelStore) -> (r: bool)
    requires
        store.inv(),
    ensures
        r == is_follower_spec(store@, follower@, followed@),
{
    let followed_c = match search_channel_by_username(followed, store) {
        Some(c) => c,
        None => {
            return false;
        },
    };
    proof {
        let i = choose|i: int|
            #[trigger] first_match_at(store@, followed@, i) && followed_c@ == store@[i];
        lemma_name_resolves(store@, followed@, i);
    }
    let follower_c = match search_channel_by_username(follower, store) {
        Some(c) => c,
        None => {
            return false;
        },
    };
    proof {
        let i = choose|i: int|
            #[trigger] first_match_at(store@, follower@, i) && follower_c@ == store@[i];
        lemma_name_resolves(store@, follower@, i);
    }
    contains_id(&followed_c.follower_list, follower_c.id)
}

/// Tests whether `judge` currently bans `victim`; absence of either party
/// answers `false`, never an error.
pub fn is_banned(victim: &String, judge: &String, store: &ChannelStore) -> (r: bool)
    requires
        store.inv(),
    ensures
        r == is_banned_spec(store@, victim@, judge@),
{
    let judge_c = match search_channel_by_username(judge, store) {
        Some(c) => c,
        None => {
            return false;
        },
    };
    proof {
        let i = choose|i: int|
            #[trigger] first_match_at(store@, judge@, i) && judge_c@ == store@[i];
        lemma_name_resolves(store@, judge@, i);
    }
    let victim_c = match search_channel_by_username(victim, store) {
        Some(c) => c,
        None => {
            return false;
        },
    };
    proof {
        let i = choose|i: int|
            #[trigger] first_match_at(store@, victim@, i) && victim_c@ == store@[i];
        lemma_name_resolves(store@, victim@, i);
    }
    contains_id(&judge_c.banned_list, victim_c.id)
}

} // verus!
