//! The channel repository: the unit of durable state.
//!
//! A `ChannelStore` holds every channel record and assigns durable
//! identifiers at creation.  It is the store-capability handle that every
//! engine operation takes explicitly.  The module also defines the two
//! invariants of the data model: structural well-formedness (`wf`) and edge
//! symmetry (`symmetric`).

use vstd::prelude::*;

use crate::channel::{Channel, ChannelModel, OpError};

verus! {

/// The models of a sequence of records.
pub open spec fn models_of(cs: Seq<Channel>) -> Seq<ChannelModel> {
    cs.map_values(|c: Channel| c@)
}

/// The in-memory channel repository.
pub struct ChannelStore {
    pub channels: Vec<Channel>,
    pub next_id: u64,
}

impl View for ChannelStore {
    type V = Seq<ChannelModel>;

    open spec fn view(&self) -> Seq<ChannelModel> {
        models_of(self.channels@)
    }
}

/// Some record carries this username.
pub open spec fn taken(s: Seq<ChannelModel>, name: Seq<char>) -> bool {
    exists|i: int| 0 <= i < s.len() && (#[trigger] s[i]).username == name
}

/// The index of a record carrying this username (meaningful under `taken`;
/// unique under `wf`).
pub open spec fn name_idx(s: Seq<ChannelModel>, name: Seq<char>) -> int {
    choose|i: int| 0 <= i < s.len() && (#[trigger] s[i]).username == name
}

/// The record carrying this username.
pub open spec fn chan_of(s: Seq<ChannelModel>, name: Seq<char>) -> ChannelModel {
    s[name_idx(s, name)]
}

/// Some record carries this identifier.
pub open spec fn has_id(s: Seq<ChannelModel>, id: u64) -> bool {
    exists|i: int| 0 <= i < s.len() && (#[trigger] s[i]).id == id
}

/// The index of the record carrying this identifier (meaningful under
/// `has_id`; unique under `wf`).
pub open spec fn id_idx(s: Seq<ChannelModel>, id: u64) -> int {
    choose|i: int| 0 <= i < s.len() && (#[trigger] s[i]).id == id
}

/// The record carrying this identifier.
pub open spec fn chan_by_id(s: Seq<ChannelModel>, id: u64) -> ChannelModel {
    s[id_idx(s, id)]
}

/// Index `i` holds the first record carrying this username.
pub open spec fn first_match_at(s: Seq<ChannelModel>, name: Seq<char>, i: int) -> bool {
    &&& 0 <= i < s.len()
    &&& s[i].username == name
    &&& forall|j: int| 0 <= j < i ==> (#[trigger] s[j]).username != name
}

/// The four edge lists of one record are duplicate-free and never name the
/// record itself.
pub open spec fn lists_wf(c: ChannelModel) -> bool {
    &&& c.follower_list.no_duplicates()
    &&& c.banned_list.no_duplicates()
    &&& c.followed_list.no_duplicates()
    &&& c.banned_from_list.no_duplicates()
    &&& !c.follower_list.contains(c.id)
    &&& !c.banned_list.contains(c.id)
    &&& !c.followed_list.contains(c.id)
    &&& !c.banned_from_list.contains(c.id)
}

/// Every identifier in the record's edge lists resolves to a live record:
/// referential integrity.
pub open spec fn refs_exist(s: Seq<ChannelModel>, c: ChannelModel) -> bool {
    &&& forall|x: u64| #[trigger] c.follower_list.contains(x) ==> has_id(s, x)
    &&& forall|x: u64| #[trigger] c.banned_list.contains(x) ==> has_id(s, x)
    &&& forall|x: u64| #[trigger] c.followed_list.contains(x) ==> has_id(s, x)
    &&& forall|x: u64| #[trigger] c.banned_from_list.contains(x) ==> has_id(s, x)
}

/// Structural well-formedness of the whole table: identifiers and usernames
/// are unique, every edge list is duplicate-free, self-reference-free and
/// dangling-reference-free.
pub open spec fn wf(s: Seq<ChannelModel>) -> bool {
    &&& forall|i: int, j: int|
        #![trigger s[i], s[j]]
        0 <= i < j < s.len() ==> s[i].id != s[j].id && s[i].username != s[j].username
    &&& forall|i: int| 0 <= i < s.len() ==> lists_wf(#[trigger] s[i])
    &&& forall|i: int| 0 <= i < s.len() ==> refs_exist(s, #[trigger] s[i])
}

/// Edge symmetry: B stands in A's followed list exactly when A stands in
/// B's follower list, and likewise for banned and banned-from.
pub open spec fn symmetric(s: Seq<ChannelModel>) -> bool {
    forall|i: int, j: int|
        #![trigger s[i], s[j]]
        0 <= i < s.len() && 0 <= j < s.len() ==> {
            &&& (s[i].followed_list.contains(s[j].id) <==> s[j].follower_list.contains(s[i].id))
            &&& (s[i].banned_list.contains(s[j].id) <==> s[j].banned_from_list.contains(s[i].id))
        }
}

/// A newly created record: the chosen username, the assigned identifier and
/// four empty edge lists.
pub open spec fn fresh_channel(id: u64, name: Seq<char>) -> ChannelModel {
    ChannelModel {
        id,
        username: name,
        follower_list: Seq::empty(),
        banned_list: Seq::empty(),
        followed_list: Seq::empty(),
        banned_from_list: Seq::empty(),
    }
}

/// Some other record already carries the username this record wants.
pub open spec fn name_conflict(s: Seq<ChannelModel>, c: ChannelModel) -> bool {
    exists|j: int|
        0 <= j < s.len() && (#[trigger] s[j]).id != c.id && s[j].username == c.username
}

/// No edge list anywhere names this identifier.
pub open spec fn unreferenced(s: Seq<ChannelModel>, id: u64) -> bool {
    forall|j: int|
        0 <= j < s.len() ==> {
            let c = #[trigger] s[j];
            &&& !c.follower_list.contains(id)
            &&& !c.banned_list.contains(id)
            &&& !c.followed_list.contains(id)
            &&& !c.banned_from_list.contains(id)
        }
}

impl ChannelStore {
    /// The repository invariant: the table is well-formed and every assigned
    /// identifier lies below the allocation counter.
    pub open spec fn inv(&self) -> bool {
        &&& wf(self@)
        &&& forall|i: int| 0 <= i < self@.len() ==> (#[trigger] self@[i]).id < self.next_id
    }

    /// An empty repository.
    pub fn new() -> (store: ChannelStore)
        ensures
            store.inv(),
            symmetric(store@),
            store@ == Seq::<ChannelModel>::empty(),
            store.next_id == 0,
    {
        let store = ChannelStore { channels: Vec::new(), next_id: 0 };
        proof {
            assert(store@ =~= Seq::<ChannelModel>::empty());
        }
        store
    }
}

/// Under unique usernames, any record carrying a username is the record the
/// resolver names.
pub proof fn lemma_name_resolves(s: Seq<ChannelModel>, name: Seq<char>, i: int)
    requires
        wf(s),
        0 <= i < s.len(),
        s[i].username == name,
    ensures
        taken(s, name),
        name_idx(s, name) == i,
        chan_of(s, name) == s[i],
{
    assert(taken(s, name));
    let j = name_idx(s, name);
    assert(0 <= j < s.len() && s[j].username == name);
    if i < j {
        assert(s[i].username != s[j].username);
    } else if j < i {
        assert(s[j].username != s[i].username);
    }
}

/// Under unique identifiers, any record carrying an identifier is the record
/// the resolver names.
pub proof fn lemma_id_resolves(s: Seq<ChannelModel>, id: u64, i: int)
    requires
        wf(s),
        0 <= i < s.len(),
        s[i].id == id,
    ensures
        has_id(s, id),
        id_idx(s, id) == i,
        chan_by_id(s, id) == s[i],
{
    assert(has_id(s, id));
    let j = id_idx(s, id);
    assert(0 <= j < s.len() && s[j].id == id);
    if i < j {
        assert(s[i].id != s[j].id);
    } else if j < i {
        assert(s[j].id != s[i].id);
    }
}

/// Replacing a record with one of equal identifier keeps the same set of
/// identifiers live.
pub proof fn lemma_has_id_update(s: Seq<ChannelModel>, k: int, c: ChannelModel)
    requires
        0 <= k < s.len(),
        s[k].id == c.id,
    ensures
        forall|x: u64| has_id(#[trigger] s.update(k, c), x) <==> has_id(s, x),
{
    let s1 = s.update(k, c);
    assert forall|x: u64| has_id(s1, x) <==> has_id(s, x) by {
        if has_id(s1, x) {
            let i = choose|i: int| 0 <= i < s1.len() && (#[trigger] s1[i]).id == x;
            if i == k {
                assert(s[k].id == x);
            } else {
                assert(s[i].id == x);
            }
            assert(has_id(s, x));
        }
        if has_id(s, x) {
            let i = choose|i: int| 0 <= i < s.len() && (#[trigger] s[i]).id == x;
            if i == k {
                assert(s1[k].id == x);
            } else {
                assert(s1[i].id == x);
            }
            assert(has_id(s1, x));
        }
    }
}

/// Finds the first record with this username.
fn find_by_username(channels: &Vec<Channel>, username: &String) -> (r: Option<usize>)
    ensures
        match r {
            Some(i) => i < channels.len() && first_match_at(
                models_of(channels@),
                username@,
                i as int,
            ),
            None => !taken(models_of(channels@), username@),
        },
{
    let mut i: usize = 0;
    while i < channels.len()
        invariant
            i <= channels.len(),
            forall|j: int| 0 <= j < i ==> (#[trigger] models_of(channels@)[j]).username != username@,
        decreases channels.len() - i,
    {
        if channels[i].username == *username {
            return Some(i);
        }
        i = i + 1;
    }
    None
}

/// Finds the first record with this identifier.
fn find_by_id(channels: &Vec<Channel>, id: u64) -> (r: Option<usize>)
    ensures
        match r {
            Some(i) => i < channels.len() && models_of(channels@)[i as int].id == id,
            None => !has_id(models_of(channels@), id),
        },
{
    let mut i: usize = 0;
    while i < channels.len()
        invariant
            i <= channels.len(),
            forall|j: int| 0 <= j < i ==> (#[trigger] models_of(channels@)[j]).id != id,
        decreases channels.len() - i,
    {
        if channels[i].id == id {
            return Some(i);
        }
        i = i + 1;
    }
    None
}

/// Resolves a username to the full current record; absence is an expected
/// outcome, not a failure.  Returns the first match in table order.
pub fn search_channel_by_username(username: &String, store: &ChannelStore) -> (r: Option<Channel>)
    ensures
        match r {
            Some(c) => exists|i: int|
                #[trigger] first_match_at(store@, username@, i) && c@ == store@[i],
            None => !taken(store@, username@),
        },
{
    match find_by_username(&store.channels, username) {
        Some(i) => {
            let c = store.channels[i].clone();
            proof {
                assert(first_match_at(store@, username@, i as int) && c@ == store@[i as int]);
            }
            Some(c)
        },
        None => None,
    }
}

/// Resolves a durable identifier to the full current record.
pub fn search_channel_by_id(id: u64, store: &ChannelStore) -> (r: Option<Channel>)
    ensures
        match r {
            Some(c) => exists|i: int|
                0 <= i < store@.len() && c@ == #[trigger] store@[i] && c@.id == id,
            None => !has_id(store@, id),
        },
{
    match find_by_id(&store.channels, id) {
        Some(i) => {
            let c = store.channels[i].clone();
            proof {
                assert(c@ == store@[i as int] && c@.id == id);
            }
            Some(c)
        },
        None => None,
    }
}

/// Creates a channel once the chosen username is confirmed not already
/// taken; the store assigns the durable identifier.
pub fn create_channel(username: &String, store: &mut ChannelStore) -> (r: Result<Channel, OpError>)
    requires
        old(store).inv(),
        old(store).next_id < u64::MAX,
    ensures
        final(store).inv(),
        symmetric(old(store)@) ==> symmetric(final(store)@),
        taken(old(store)@, username@) ==> {
            &&& r == Err::<Channel, OpError>(OpError::AlreadyExists)
            &&& final(store)@ == old(store)@
            &&& final(store).next_id == old(store).next_id
        },
        !taken(old(store)@, username@) ==> {
            &&& (r matches Ok(c) && c@ == fresh_channel(old(store).next_id, username@))
            &&& final(store)@ == old(store)@.push(fresh_channel(old(store).next_id, username@))
            &&& final(store).next_id == old(store).next_id + 1
        },
{
    match find_by_username(&store.channels, username) {
        Some(_) => Err(OpError::AlreadyExists),
        None => {
            let c = Channel {
                id: store.next_id,
                username: username.clone(),
                follower_list: Vec::new(),
                banned_list: Vec::new(),
                followed_list: Vec::new(),
                banned_from_list: Vec::new(),
            };
            let out = c.clone();
            store.channels.push(c);
            store.next_id = store.next_id + 1;
            proof {
                let s0 = old(store)@;
                let m = fresh_channel(old(store).next_id, username@);
                let s1 = s0.push(m);
                assert(out@ =~= m);
                assert(store@ =~= s1);
                assert forall|x: u64| has_id(s0, x) implies has_id(s1, x) by {
                    let i = choose|i: int| 0 <= i < s0.len() && (#[trigger] s0[i]).id == x;
                    assert(s1[i].id == x);
                }
                assert forall|i: int| 0 <= i < s1.len() implies refs_exist(s1, #[trigger] s1[i]) by {
                    if i < s0.len() {
                        assert(refs_exist(s0, s0[i]));
                        assert(s1[i] == s0[i]);
                    } else {
                        assert(s1[i] == m);
                    }
                }
                assert(wf(s1));
                assert forall|i: int| 0 <= i < s1.len() implies (#[trigger] s1[i]).id
                    < store.next_id by {
                    if i < s0.len() {
                        assert(s0[i].id < old(store).next_id);
                    }
                }
                if symmetric(s0) {
                    assert forall|i: int, j: int|
                        #![trigger s1[i], s1[j]]
                        0 <= i < s1.len() && 0 <= j < s1.len() implies {
                        &&& (s1[i].followed_list.contains(s1[j].id) <==> s1[j].follower_list.contains(
                            s1[i].id,
                        ))
                        &&& (s1[i].banned_list.contains(s1[j].id) <==> s1[j].banned_from_list.contains(
                            s1[i].id,
                        ))
                    } by {
                        if i < s0.len() && j < s0.len() {
                            assert(s1[i] == s0[i] && s1[j] == s0[j]);
                        } else if i < s0.len() {
                            // j names the fresh record: nothing referenced its new
                            // identifier before, and its own lists are empty
                            assert(s1[j] == m);
                            assert(!has_id(s0, m.id));
                            assert(refs_exist(s0, s0[i]));
                            assert(!s0[i].followed_list.contains(m.id));
                            assert(!s0[i].banned_list.contains(m.id));
                        } else if j < s0.len() {
                            assert(s1[i] == m);
                            assert(!has_id(s0, m.id));
                            assert(refs_exist(s0, s0[j]));
                            assert(!s0[j].follower_list.contains(m.id));
                            assert(!s0[j].banned_from_list.contains(m.id));
                        }
                    }
                }
            }
            Ok(out)
        },
    }
}

/// Writes a record back under its durable identifier, replacing the stored
/// content; rejects a username already carried by a different record.
#[verifier::loop_isolation(false)]
pub fn update_channel(channel: Channel, store: &mut ChannelStore) -> (r: Result<Channel, OpError>)
    requires
        old(store).inv(),
        lists_wf(channel@),
        refs_exist(old(store)@, channel@),
    ensures
        final(store).inv(),
        final(store).next_id == old(store).next_id,
        !has_id(old(store)@, channel@.id) ==> {
            &&& r == Err::<Channel, OpError>(OpError::NotFound)
            &&& final(store)@ == old(store)@
        },
        has_id(old(store)@, channel@.id) && name_conflict(old(store)@, channel@) ==> {
            &&& r == Err::<Channel, OpError>(OpError::AlreadyExists)
            &&& final(store)@ == old(store)@
        },
        has_id(old(store)@, channel@.id) && !name_conflict(old(store)@, channel@) ==> {
            &&& (r matches Ok(c) && c@ == channel@)
            &&& final(store)@ == old(store)@.update(id_idx(old(store)@, channel@.id), channel@)
        },
{
    let idx = match find_by_id(&store.channels, channel.id) {
        Some(i) => i,
        None => {
            return Err(OpError::NotFound);
        },
    };
    proof {
        lemma_id_resolves(old(store)@, channel@.id, idx as int);
    }
    // the repository, not the engine, enforces username uniqueness
    let mut j: usize = 0;
    while j < store.channels.len()
        invariant
            j <= store.channels.len(),
            forall|k: int|
                0 <= k < j ==> !((#[trigger] models_of(store.channels@)[k]).id != channel@.id
                    && models_of(store.channels@)[k].username == channel@.username),
        decreases store.channels.len() - j,
    {
        if store.channels[j].id != channel.id && store.channels[j].username == channel.username {
            proof {
                assert(models_of(store.channels@)[j as int].id != channel@.id && models_of(
                    store.channels@,
                )[j as int].username == channel@.username);
                assert(name_conflict(old(store)@, channel@));
            }
            return Err(OpError::AlreadyExists);
        }
        j = j + 1;
    }
    proof {
        lemma_id_resolves(old(store)@, channel@.id, idx as int);
    }
    let out = channel.clone();
    store.channels.set(idx, channel);
    proof {
        let s0 = old(store)@;
        let k = idx as int;
        let c = out@;
        let s1 = s0.update(k, c);
        assert(store@ =~= s1);
        lemma_has_id_update(s0, k, c);
        assert forall|i: int| 0 <= i < s1.len() implies lists_wf(#[trigger] s1[i]) by {
            if i != k {
                assert(s1[i] == s0[i]);
            }
        }
        assert forall|i: int| 0 <= i < s1.len() implies refs_exist(s1, #[trigger] s1[i]) by {
            if i != k {
                assert(s1[i] == s0[i]);
                assert(refs_exist(s0, s0[i]));
            }
        }
        assert forall|i: int, j2: int|
            #![trigger s1[i], s1[j2]]
            0 <= i < j2 < s1.len() implies s1[i].id != s1[j2].id && s1[i].username
            != s1[j2].username by {
            assert(s0[i].id != s0[j2].id && s0[i].username != s0[j2].username);
            if i == k {
                assert(s1[j2] == s0[j2]);
                assert(s0[j2].id != c.id);
            } else if j2 == k {
                assert(s1[i] == s0[i]);
                assert(s0[i].id != c.id);
            }
        }
        assert forall|i: int| 0 <= i < s1.len() implies (#[trigger] s1[i]).id
            < store.next_id by {
            if i != k {
                assert(s0[i].id < old(store).next_id);
            } else {
                assert(s0[k].id < old(store).next_id);
            }
        }
    }
    Ok(out)
}

/// Removes a record by username.  Safe only once nothing references the
/// record's identifier; the cascading delete of the engine establishes that
/// before calling here.
pub fn delete_channel(username: &String, store: &mut ChannelStore) -> (r: Result<Channel, OpError>)
    requires
        old(store).inv(),
        taken(old(store)@, username@) ==> unreferenced(
            old(store)@,
            chan_of(old(store)@, username@).id,
        ),
    ensures
        final(store).inv(),
        final(store).next_id == old(store).next_id,
        symmetric(old(store)@) ==> symmetric(final(store)@),
        !taken(old(store)@, username@) ==> {
            &&& r == Err::<Channel, OpError>(OpError::NotFound)
            &&& final(store)@ == old(store)@
        },
        taken(old(store)@, username@) ==> {
            &&& (r matches Ok(c) && c@ == chan_of(old(store)@, username@))
            &&& final(store)@ == old(store)@.remove(name_idx(old(store)@, username@))
        },
{
    let idx = match find_by_username(&store.channels, username) {
        Some(i) => i,
        None => {
            return Err(OpError::NotFound);
        },
    };
    proof {
        lemma_name_resolves(old(store)@, username@, idx as int);
    }
    let removed = store.channels.remove(idx);
    proof {
        let s0 = old(store)@;
        let k = idx as int;
        let s1 = s0.remove(k);
        assert(store@ =~= s1);
        assert(removed@ == s0[k]);
        assert forall|i: int| 0 <= i < s1.len() implies s1[i] == (if i < k {
            s0[i]
        } else {
            s0[i + 1]
        }) by {}
        let cid = s0[k].id;
        assert forall|x: u64| x != cid && has_id(s0, x) implies has_id(s1, x) by {
            let i = choose|i: int| 0 <= i < s0.len() && (#[trigger] s0[i]).id == x;
            if i < k {
                assert(s1[i].id == x);
            } else {
                assert(i != k);
                assert(s1[i - 1].id == x);
            }
        }
        assert forall|i: int| 0 <= i < s1.len() implies refs_exist(s1, #[trigger] s1[i]) by {
            let orig = if i < k {
                i
            } else {
                i + 1
            };
            assert(refs_exist(s0, s0[orig]));
            assert(s1[i] == s0[orig]);
            assert(!s0[orig].follower_list.contains(cid));
            assert(!s0[orig].banned_list.contains(cid));
            assert(!s0[orig].followed_list.contains(cid));
            assert(!s0[orig].banned_from_list.contains(cid));
            assert forall|x: u64| #[trigger] s1[i].follower_list.contains(x) implies has_id(
                s1,
                x,
            ) by {
                assert(has_id(s0, x));
                assert(x != cid);
            }
            assert forall|x: u64| #[trigger] s1[i].banned_list.contains(x) implies has_id(
                s1,
                x,
            ) by {
                assert(has_id(s0, x));
                assert(x != cid);
            }
            assert forall|x: u64| #[trigger] s1[i].followed_list.contains(x) implies has_id(
                s1,
                x,
            ) by {
                assert(has_id(s0, x));
                assert(x != cid);
            }
            assert forall|x: u64| #[trigger] s1[i].banned_from_list.contains(x) implies has_id(
                s1,
                x,
            ) by {
                assert(has_id(s0, x));
                assert(x != cid);
            }
        }
        assert forall|i: int, j: int|
            #![trigger s1[i], s1[j]]
            0 <= i < j < s1.len() implies s1[i].id != s1[j].id && s1[i].username
            != s1[j].username by {
            let oi = if i < k {
                i
            } else {
                i + 1
            };
            let oj = if j < k {
                j
            } else {
                j + 1
            };
            assert(s1[i] == s0[oi] && s1[j] == s0[oj]);
            assert(s0[oi].id != s0[oj].id && s0[oi].username != s0[oj].username);
        }
        assert forall|i: int| 0 <= i < s1.len() implies lists_wf(#[trigger] s1[i]) by {
            let orig = if i < k {
                i
            } else {
                i + 1
            };
            assert(s1[i] == s0[orig]);
            assert(lists_wf(s0[orig]));
        }
        assert forall|i: int| 0 <= i < s1.len() implies (#[trigger] s1[i]).id
            < store.next_id by {
            let orig = if i < k {
                i
            } else {
                i + 1
            };
            assert(s1[i] == s0[orig]);
            assert(s0[orig].id < old(store).next_id);
        }
        if symmetric(s0) {
            assert forall|i: int, j: int|
                #![trigger s1[i], s1[j]]
                0 <= i < s1.len() && 0 <= j < s1.len() implies {
                &&& (s1[i].followed_list.contains(s1[j].id) <==> s1[j].follower_list.contains(
                    s1[i].id,
                ))
                &&& (s1[i].banned_list.contains(s1[j].id) <==> s1[j].banned_from_list.contains(
                    s1[i].id,
                ))
            } by {
                let oi = if i < k {
                    i
                } else {
                    i + 1
                };
                let oj = if j < k {
                    j
                } else {
                    j + 1
                };
                assert(s1[i] == s0[oi] && s1[j] == s0[oj]);
            }
        }
    }
    Ok(removed)
}

} // verus!
