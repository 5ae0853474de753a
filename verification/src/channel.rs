//! The channel record: the sole entity of the graph, and its mathematical
//! model.

use vstd::prelude::*;

verus! {

/// A channel record.
///
/// `id` is the durable, store-assigned identifier; it never changes once the
/// record exists, so edges stored in the four lists survive a rename.  The
/// lists hold identifiers of other channels, one entry per edge half.
#[derive(Debug, PartialEq)]
pub struct Channel {
    pub id: u64,
    pub username: String,
    pub follower_list: Vec<u64>,
    pub banned_list: Vec<u64>,
    pub followed_list: Vec<u64>,
    pub banned_from_list: Vec<u64>,
}

/// The mathematical model of a channel record: the same fields, as
/// mathematical values.
#[verifier::ext_equal]
pub ghost struct ChannelModel {
    pub id: u64,
    pub username: Seq<char>,
    pub follower_list: Seq<u64>,
    pub banned_list: Seq<u64>,
    pub followed_list: Seq<u64>,
    pub banned_from_list: Seq<u64>,
}

impl View for Channel {
    type V = ChannelModel;

    open spec fn view(&self) -> ChannelModel {
        ChannelModel {
            id: self.id,
            username: self.username@,
            follower_list: self.follower_list@,
            banned_list: self.banned_list@,
            followed_list: self.followed_list@,
            banned_from_list: self.banned_from_list@,
        }
    }
}

/// Copies a list of identifiers.
fn clone_id_list(v: &Vec<u64>) -> (out: Vec<u64>)
    ensures
        out@ == v@,
{
    let mut out: Vec<u64> = Vec::new();
    let mut i: usize = 0;
    while i < v.len()
        invariant
            i <= v.len(),
            out@ == v@.subrange(0, i as int),
        decreases v.len() - i,
    {
        out.push(v[i]);
        i = i + 1;
        proof {
            assert(out@ =~= v@.subrange(0, i as int));
        }
    }
    proof {
        assert(out@ =~= v@);
    }
    out
}

impl Clone for Channel {
    fn clone(&self) -> (r: Self)
        ensures
            r@ == self@,
    {
        let r = Channel {
            id: self.id,
            username: self.username.clone(),
            follower_list: clone_id_list(&self.follower_list),
            banned_list: clone_id_list(&self.banned_list),
            followed_list: clone_id_list(&self.followed_list),
            banned_from_list: clone_id_list(&self.banned_from_list),
        };
        proof {
            assert(r@ =~= self@);
        }
        r
    }
}

/// The failure kinds an engine operation can report.
///
/// `StoreUnavailable` is reserved for store-backed deployments whose record
/// store can fail out-of-process; the in-memory repository never reports it.
#[derive(Clone, Copy, Debug, PartialEq, Eq, Structural)]
pub enum OpError {
    /// A referenced username or identifier resolves to no record.
    NotFound,
    /// A create for a taken username, or an edge-add for a pair already
    /// connected.
    AlreadyExists,
    /// An edge-remove for a pair not currently connected.
    NotConnected,
    /// An edge-add whose two endpoints are the same channel.
    SelfReference,
    /// The record store could not be reached.
    StoreUnavailable,
}

} // verus!
