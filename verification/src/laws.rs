//! The laws of the relationship engine, each proved once and for all inputs:
//! symmetry of a recorded relation, idempotent detection of a repeated
//! follow, exact inversion of follow by unfollow, completeness of the delete
//! cascade, and preservation of edges across a rename.

use vstd::prelude::*;

use vstd::seq_lib::lemma_seq_contains_after_push;

use crate::channel::{ChannelModel, OpError};
use crate::edge_ops::{lemma_seq_remove_contains, lemma_seq_remove_push};
use crate::operations::{
    is_follower_spec, lemma_distinct_records, link_actor_after, link_next, link_ok, rename_next,
    rename_ok, rename_updated, strip_model, unlink_next, unlink_ok,
};
use crate::relations::{add_edge_err, add_edge_updated, remove_edge_updated, EdgeList};
use crate::store::{chan_of, name_idx, symmetric, taken, wf};

verus! {

/// A table whose usernames are unchanged resolves every username to the
/// same position.
pub proof fn lemma_resolution_stable(
    s: Seq<ChannelModel>,
    s1: Seq<ChannelModel>,
    name: Seq<char>,
    i: int,
)
    requires
        wf(s),
        s.len() == s1.len(),
        forall|j: int| 0 <= j < s.len() ==> (#[trigger] s1[j]).username == s[j].username,
        0 <= i < s.len(),
        s[i].username == name,
    ensures
        taken(s1, name),
        name_idx(s1, name) == i,
        chan_of(s1, name) == s1[i],
{
    assert(s1[i].username == name);
    assert(taken(s1, name));
    let j = name_idx(s1, name);
    assert(0 <= j < s1.len() && s1[j].username == name);
    if j != i {
        lemma_distinct_records(s, i, j);
    }
}

/// Symmetry invariant: a follow that can be recorded leaves the follower's
/// identifier in the followed channel's follower list, the followed
/// channel's identifier in the follower's followed list, and the follow
/// query answering true.
pub proof fn lemma_follow_symmetry(s: Seq<ChannelModel>, follower: Seq<char>, followed: Seq<char>)
    requires
        wf(s),
        link_ok(s, follower, followed, EdgeList::Follower),
    ensures
        ({
            let s1 = link_next(s, follower, followed, EdgeList::Follower);
            &&& is_follower_spec(s1, follower, followed)
            &&& chan_of(s1, followed).follower_list.contains(chan_of(s, follower).id)
            &&& chan_of(s1, follower).followed_list.contains(chan_of(s, followed).id)
        }),
{
    let s1 = link_next(s, follower, followed, EdgeList::Follower);
    let ia = name_idx(s, follower);
    let ib = name_idx(s, followed);
    assert(0 <= ia < s.len() && s[ia].username == follower);
    assert(0 <= ib < s.len() && s[ib].username == followed);
    assert(ia != ib) by {
        if ia == ib {
            assert(chan_of(s, follower).id == chan_of(s, followed).id);
        }
    }
    assert(s1.len() == s.len());
    assert forall|j: int| 0 <= j < s.len() implies (#[trigger] s1[j]).username
        == s[j].username by {}
    lemma_resolution_stable(s, s1, follower, ia);
    lemma_resolution_stable(s, s1, followed, ib);
    assert(s1[ib] == add_edge_updated(s, follower, followed, EdgeList::Follower));
    assert(s1[ia] == link_actor_after(s, follower, followed, EdgeList::Follower));
    lemma_seq_contains_after_push(s[ib].follower_list, s[ia].id, s[ia].id);
    lemma_seq_contains_after_push(s[ia].followed_list, s[ib].id, s[ib].id);
}

/// Idempotent detection: once a follow is recorded, recording it again
/// fails as already connected and leaves the table exactly as it stood.
pub proof fn lemma_follow_idempotent_detection(
    s: Seq<ChannelModel>,
    follower: Seq<char>,
    followed: Seq<char>,
)
    requires
        wf(s),
        link_ok(s, follower, followed, EdgeList::Follower),
    ensures
        ({
            let s1 = link_next(s, follower, followed, EdgeList::Follower);
            &&& !link_ok(s1, follower, followed, EdgeList::Follower)
            &&& add_edge_err(s1, follower, followed, EdgeList::Follower) == OpError::AlreadyExists
            &&& link_next(s1, follower, followed, EdgeList::Follower) == s1
        }),
{
    let s1 = link_next(s, follower, followed, EdgeList::Follower);
    let ia = name_idx(s, follower);
    let ib = name_idx(s, followed);
    assert(0 <= ia < s.len() && s[ia].username == follower);
    assert(0 <= ib < s.len() && s[ib].username == followed);
    assert(ia != ib) by {
        if ia == ib {
            assert(chan_of(s, follower).id == chan_of(s, followed).id);
        }
    }
    assert forall|j: int| 0 <= j < s.len() implies (#[trigger] s1[j]).username
        == s[j].username by {}
    lemma_resolution_stable(s, s1, follower, ia);
    lemma_resolution_stable(s, s1, followed, ib);
    assert(s1[ib] == add_edge_updated(s, follower, followed, EdgeList::Follower));
    lemma_seq_contains_after_push(s[ib].follower_list, s[ia].id, s[ia].id);
    assert(chan_of(s1, followed).follower_list.contains(chan_of(s1, follower).id));
}

/// Inverse round-trip: a follow that can be recorded, followed by an
/// unfollow of the same pair, restores the table exactly.
pub proof fn lemma_follow_unfollow_round_trip(
    s: Seq<ChannelModel>,
    follower: Seq<char>,
    followed: Seq<char>,
)
    requires
        wf(s),
        symmetric(s),
        link_ok(s, follower, followed, EdgeList::Follower),
    ensures
        unlink_next(
            link_next(s, follower, followed, EdgeList::Follower),
            follower,
            followed,
            EdgeList::Follower,
        ) == s,
{
    let s1 = link_next(s, follower, followed, EdgeList::Follower);
    let ia = name_idx(s, follower);
    let ib = name_idx(s, followed);
    assert(0 <= ia < s.len() && s[ia].username == follower);
    assert(0 <= ib < s.len() && s[ib].username == followed);
    assert(ia != ib) by {
        if ia == ib {
            assert(chan_of(s, follower).id == chan_of(s, followed).id);
        }
    }
    assert forall|j: int| 0 <= j < s.len() implies (#[trigger] s1[j]).username
        == s[j].username by {}
    lemma_resolution_stable(s, s1, follower, ia);
    lemma_resolution_stable(s, s1, followed, ib);
    assert(s1[ib] == add_edge_updated(s, follower, followed, EdgeList::Follower));
    assert(s1[ia] == link_actor_after(s, follower, followed, EdgeList::Follower));
    lemma_seq_contains_after_push(s[ib].follower_list, s[ia].id, s[ia].id);
    assert(unlink_ok(s1, follower, followed, EdgeList::Follower));
    let s2 = unlink_next(s1, follower, followed, EdgeList::Follower);
    // removing the just-appended identifiers undoes the two appends exactly
    assert(!s[ib].follower_list.contains(s[ia].id));
    assert(!s[ia].followed_list.contains(s[ib].id)) by {
        assert(s[ia].followed_list.contains(s[ib].id) <==> s[ib].follower_list.contains(s[ia].id));
    }
    lemma_seq_remove_push(s[ib].follower_list, s[ia].id);
    lemma_seq_remove_push(s[ia].followed_list, s[ib].id);
    assert(remove_edge_updated(s1, follower, followed, EdgeList::Follower) =~= s[ib]);
    assert(s2[ib] == s[ib]);
    assert(s2[ia] =~= s[ia]);
    assert(s2 =~= s);
}

/// Cascade completeness: in the table a delete leaves behind, no surviving
/// record's edge lists name the deleted identifier, and every other
/// identifier keeps its membership.
pub proof fn lemma_delete_cascade_completeness(
    s: Seq<ChannelModel>,
    sf: Seq<ChannelModel>,
    name: Seq<char>,
)
    requires
        wf(s),
        taken(s, name),
        sf.len() == s.len() - 1,
        forall|j: int|
            0 <= j < name_idx(s, name) ==> sf[j] == strip_model(
                #[trigger] s[j],
                chan_of(s, name).id,
            ),
        forall|j: int|
            name_idx(s, name) <= j < sf.len() ==> sf[j] == strip_model(
                #[trigger] s[j + 1],
                chan_of(s, name).id,
            ),
    ensures
        forall|j: int|
            0 <= j < sf.len() ==> {
                let c = #[trigger] sf[j];
                &&& !c.follower_list.contains(chan_of(s, name).id)
                &&& !c.banned_list.contains(chan_of(s, name).id)
                &&& !c.followed_list.contains(chan_of(s, name).id)
                &&& !c.banned_from_list.contains(chan_of(s, name).id)
            },
        forall|j: int, x: u64|
            #![trigger sf[j].followed_list.contains(x)]
            0 <= j < sf.len() && x != chan_of(s, name).id ==> {
                let orig = if j < name_idx(s, name) {
                    j
                } else {
                    j + 1
                };
                sf[j].followed_list.contains(x) <==> s[orig].followed_list.contains(x)
            },
{
    let cid = chan_of(s, name).id;
    assert forall|j: int| 0 <= j < sf.len() implies {
        let c = #[trigger] sf[j];
        &&& !c.follower_list.contains(cid)
        &&& !c.banned_list.contains(cid)
        &&& !c.followed_list.contains(cid)
        &&& !c.banned_from_list.contains(cid)
    } by {
        let orig = if j < name_idx(s, name) {
            j
        } else {
            j + 1
        };
        assert(sf[j] == strip_model(s[orig], cid));
        lemma_seq_remove_contains(s[orig].follower_list, cid);
        lemma_seq_remove_contains(s[orig].banned_list, cid);
        lemma_seq_remove_contains(s[orig].followed_list, cid);
        lemma_seq_remove_contains(s[orig].banned_from_list, cid);
    }
    assert forall|j: int, x: u64|
        #![trigger sf[j].followed_list.contains(x)]
        0 <= j < sf.len() && x != cid implies {
        let orig = if j < name_idx(s, name) {
            j
        } else {
            j + 1
        };
        sf[j].followed_list.contains(x) <==> s[orig].followed_list.contains(x)
    } by {
        let orig = if j < name_idx(s, name) {
            j
        } else {
            j + 1
        };
        assert(sf[j] == strip_model(s[orig], cid));
        lemma_seq_remove_contains(s[orig].followed_list, cid);
    }
}

/// Rename preserves edges: after a rename of the followed channel, its
/// durable identifier is unchanged, the follower's followed list is
/// unchanged and still carries that identifier, and the follow query under
/// the new name answers true.
pub proof fn lemma_rename_preserves_edges(
    s: Seq<ChannelModel>,
    follower: Seq<char>,
    name: Seq<char>,
    newname: Seq<char>,
)
    requires
        wf(s),
        symmetric(s),
        rename_ok(s, name, newname),
        is_follower_spec(s, follower, name),
        follower != name,
    ensures
        ({
            let s1 = rename_next(s, name, newname);
            &&& chan_of(s1, newname).id == chan_of(s, name).id
            &&& chan_of(s1, follower).followed_list == chan_of(s, follower).followed_list
            &&& chan_of(s1, follower).followed_list.contains(chan_of(s, name).id)
            &&& is_follower_spec(s1, follower, newname)
        }),
{
    let s1 = rename_next(s, name, newname);
    let ib = name_idx(s, name);
    let ja = name_idx(s, follower);
    assert(0 <= ib < s.len() && s[ib].username == name);
    assert(0 <= ja < s.len() && s[ja].username == follower);
    assert(ja != ib);
    assert(s1 == s.update(ib, rename_updated(s, name, newname)));
    assert(newname != follower) by {
        if newname == follower {
            // another record would already carry the new name
            assert(s[ja].id != chan_of(s, name).id ==> s[ja].username != newname);
            lemma_distinct_records(s, ja, ib);
        }
    }
    // the renamed record is the only one carrying the new name
    assert(taken(s1, newname)) by {
        assert(s1[ib].username == newname);
    }
    let jb = name_idx(s1, newname);
    assert(0 <= jb < s1.len() && s1[jb].username == newname);
    assert(jb == ib) by {
        if jb != ib {
            assert(s1[jb] == s[jb]);
            assert(s[jb].id != chan_of(s, name).id) by {
                lemma_distinct_records(s, jb, ib);
            }
        }
    }
    // the follower still resolves to its old record
    assert(taken(s1, follower)) by {
        assert(s1[ja].username == follower);
    }
    let ka = name_idx(s1, follower);
    assert(0 <= ka < s1.len() && s1[ka].username == follower);
    assert(ka == ja) by {
        if ka != ja {
            if ka == ib {
            } else {
                lemma_distinct_records(s, ka, ja);
            }
        }
    }
    assert(chan_of(s1, newname) == rename_updated(s, name, newname));
    assert(chan_of(s1, follower) == s[ja]);
    assert(s[ja].followed_list.contains(s[ib].id)) by {
        assert(s[ja].followed_list.contains(s[ib].id) <==> s[ib].follower_list.contains(s[ja].id));
    }
}

} // verus!
