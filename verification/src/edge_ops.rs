//! Edge set operations: pure, store-independent operations on an ordered
//! identifier collection.
//!
//! Addition and removal are idempotent-detecting: adding an identifier that
//! is already present, or removing one that is absent, fails and leaves the
//! collection unchanged, so callers can report "already connected" and "not
//! connected" as business conditions.

use vstd::prelude::*;

verus! {

/// The list `l` with every occurrence of `id` taken out, order otherwise
/// kept.
pub open spec fn seq_remove(l: Seq<u64>, id: u64) -> Seq<u64>
    decreases l.len(),
{
    if l.len() == 0 {
        Seq::empty()
    } else if l[0] == id {
        seq_remove(l.drop_first(), id)
    } else {
        seq![l[0]] + seq_remove(l.drop_first(), id)
    }
}

/// A non-empty list contains an element exactly when its first element is
/// that element or the rest of the list contains it.
pub proof fn lemma_contains_first_rest(l: Seq<u64>, y: u64)
    requires
        l.len() > 0,
    ensures
        l.contains(y) <==> (l[0] == y || l.drop_first().contains(y)),
{
    if l[0] == y {
        assert(l.contains(y));
    }
    if l.drop_first().contains(y) {
        let i = choose|i: int| 0 <= i < l.drop_first().len() && l.drop_first()[i] == y;
        assert(l[i + 1] == y);
        assert(l.contains(y));
    }
    if l.contains(y) && l[0] != y {
        let i = choose|i: int| 0 <= i < l.len() && l[i] == y;
        assert(l.drop_first()[i - 1] == y);
        assert(l.drop_first().contains(y));
    }
}

/// Removal distributes over concatenation.
pub proof fn lemma_seq_remove_concat(a: Seq<u64>, b: Seq<u64>, id: u64)
    ensures
        seq_remove(a + b, id) == seq_remove(a, id) + seq_remove(b, id),
    decreases a.len(),
{
    if a.len() == 0 {
        assert(a + b =~= b);
        assert(seq_remove(a, id) =~= Seq::<u64>::empty());
        assert(seq_remove(a, id) + seq_remove(b, id) =~= seq_remove(b, id));
    } else {
        assert((a + b)[0] == a[0]);
        assert((a + b).drop_first() =~= a.drop_first() + b);
        lemma_seq_remove_concat(a.drop_first(), b, id);
        if a[0] == id {
        } else {
            assert(seq![a[0]] + (seq_remove(a.drop_first(), id) + seq_remove(b, id)) =~= (seq![
                a[0],
            ] + seq_remove(a.drop_first(), id)) + seq_remove(b, id));
        }
    }
}

/// What removal keeps: exactly the members other than the removed
/// identifier.
pub proof fn lemma_seq_remove_contains(l: Seq<u64>, id: u64)
    ensures
        forall|y: u64| #[trigger] seq_remove(l, id).contains(y) <==> (l.contains(y) && y != id),
    decreases l.len(),
{
    if l.len() == 0 {
        assert(forall|y: u64| !(#[trigger] l.contains(y)));
        assert(forall|y: u64| !(#[trigger] seq_remove(l, id).contains(y)));
    } else {
        lemma_seq_remove_contains(l.drop_first(), id);
        assert forall|y: u64|
            #[trigger] seq_remove(l, id).contains(y) <==> (l.contains(y) && y != id) by {
            lemma_contains_first_rest(l, y);
            assert(seq_remove(l.drop_first(), id).contains(y) <==> (l.drop_first().contains(y) && y
                != id));
            if l[0] == id {
                assert(seq_remove(l, id) == seq_remove(l.drop_first(), id));
            } else {
                let r = seq![l[0]] + seq_remove(l.drop_first(), id);
                assert(seq_remove(l, id) == r);
                assert(r[0] == l[0]);
                assert(r.len() > 0);
                assert(r.drop_first() =~= seq_remove(l.drop_first(), id));
                lemma_contains_first_rest(r, y);
            }
        }
    }
}

/// Removing an identifier that is not contained changes nothing.
pub proof fn lemma_seq_remove_absent(l: Seq<u64>, id: u64)
    requires
        !l.contains(id),
    ensures
        seq_remove(l, id) == l,
    decreases l.len(),
{
    if l.len() == 0 {
        assert(seq_remove(l, id) =~= l);
    } else {
        assert(l[0] != id) by {
            assert(l.contains(id) <==> (l[0] == id || l.drop_first().contains(id))) by {
                lemma_contains_first_rest(l, id);
            }
        }
        assert(!l.drop_first().contains(id)) by {
            lemma_contains_first_rest(l, id);
        }
        lemma_seq_remove_absent(l.drop_first(), id);
        assert(seq![l[0]] + l.drop_first() =~= l);
    }
}

/// Removal keeps a duplicate-free list duplicate-free.
pub proof fn lemma_seq_remove_no_duplicates(l: Seq<u64>, id: u64)
    requires
        l.no_duplicates(),
    ensures
        seq_remove(l, id).no_duplicates(),
    decreases l.len(),
{
    if l.len() == 0 {
    } else {
        assert(l.drop_first().no_duplicates());
        lemma_seq_remove_no_duplicates(l.drop_first(), id);
        if l[0] == id {
        } else {
            let rest = seq_remove(l.drop_first(), id);
            let r = seq![l[0]] + rest;
            assert(!l.drop_first().contains(l[0])) by {
                if l.drop_first().contains(l[0]) {
                    let i = choose|i: int|
                        0 <= i < l.drop_first().len() && l.drop_first()[i] == l[0];
                    assert(l[i + 1] == l[0]);
                }
            }
            assert(!rest.contains(l[0])) by {
                lemma_seq_remove_contains(l.drop_first(), id);
            }
            assert forall|i: int, j: int| 0 <= i < j < r.len() implies r[i] != r[j] by {
                if i == 0 {
                    assert(r[j] == rest[j - 1]);
                    assert(rest.contains(rest[j - 1]));
                } else {
                    assert(r[i] == rest[i - 1] && r[j] == rest[j - 1]);
                }
            }
        }
    }
}

/// Removing an identifier just appended undoes the append, provided the
/// identifier was not present before.
pub proof fn lemma_seq_remove_push(l: Seq<u64>, id: u64)
    requires
        !l.contains(id),
    ensures
        seq_remove(l.push(id), id) == l,
{
    assert(l.push(id) =~= l + seq![id]);
    lemma_seq_remove_concat(l, seq![id], id);
    lemma_seq_remove_absent(l, id);
    assert(seq_remove(Seq::<u64>::empty(), id) =~= Seq::<u64>::empty());
    assert(seq![id].drop_first() =~= Seq::<u64>::empty());
    assert(seq![id][0] == id);
    assert(seq_remove(seq![id], id) =~= Seq::<u64>::empty());
    assert(l + Seq::<u64>::empty() =~= l);
}

/// Removing the first element of a duplicate-free list drops exactly that
/// element.
pub proof fn lemma_seq_remove_first(l: Seq<u64>)
    requires
        l.len() > 0,
        l.no_duplicates(),
    ensures
        seq_remove(l, l[0]) == l.drop_first(),
{
    assert(!l.drop_first().contains(l[0])) by {
        if l.drop_first().contains(l[0]) {
            let i = choose|i: int| 0 <= i < l.drop_first().len() && l.drop_first()[i] == l[0];
            assert(l[i + 1] == l[0]);
        }
    }
    lemma_seq_remove_absent(l.drop_first(), l[0]);
}

/// Appending a fresh element keeps a duplicate-free list duplicate-free.
pub proof fn lemma_push_no_duplicates(l: Seq<u64>, x: u64)
    requires
        l.no_duplicates(),
        !l.contains(x),
    ensures
        l.push(x).no_duplicates(),
{
    assert forall|i: int, j: int| 0 <= i < j < l.push(x).len() implies l.push(x)[i] != l.push(x)[j]
    by {
        if j == l.len() {
            assert(l.contains(l[i]));
        }
    }
}

/// Copies a list of identifiers.
pub(crate) fn clone_id_list(v: &Vec<u64>) -> (out: Vec<u64>)
    ensures
        out@ == v@,
{
    let mut out: Vec<u64> = Vec::new();
    let mut i: usize = 0;
    while i < v.len()
        invariant
            i <= v.len(),
            out@ == v@.subrange(0, i as int),
        decreases v.len() - i,
    {
        out.push(v[i]);
        i = i + 1;
        proof {
            assert(out@ =~= v@.subrange(0, i as int));
        }
    }
    proof {
        assert(out@ =~= v@);
    }
    out
}

/// Membership test on an identifier list.
pub fn contains_id(data: &Vec<u64>, id: u64) -> (r: bool)
    ensures
        r == data@.contains(id),
{
    let mut i: usize = 0;
    while i < data.len()
        invariant
            i <= data.len(),
            forall|j: int| 0 <= j < i ==> data@[j] != id,
        decreases data.len() - i,
    {
        if data[i] == id {
            return true;
        }
        i = i + 1;
    }
    false
}

/// Idempotent-detecting insert: fails, with the list unchanged, when the
/// identifier is already present.
pub fn add_id_to_vector(id: u64, data: &Vec<u64>) -> (r: Option<Vec<u64>>)
    ensures
        data@.contains(id) ==> r is None,
        !data@.contains(id) ==> (r matches Some(v) && v@ == data@.push(id)),
{
    if contains_id(data, id) {
        None
    } else {
        let mut out = clone_id_list(data);
        out.push(id);
        Some(out)
    }
}

/// Idempotent-detecting removal: fails, with the list unchanged, when the
/// identifier is absent.
pub fn remove_id_from_vector(id: u64, data: &Vec<u64>) -> (r: Option<Vec<u64>>)
    ensures
        !data@.contains(id) ==> r is None,
        data@.contains(id) ==> (r matches Some(v) && v@ == seq_remove(data@, id)),
{
    if !contains_id(data, id) {
        return None;
    }
    let mut out: Vec<u64> = Vec::new();
    let mut i: usize = 0;
    while i < data.len()
        invariant
            i <= data.len(),
            out@ == seq_remove(data@.subrange(0, i as int), id),
        decreases data.len() - i,
    {
        let x = data[i];
        proof {
            let pre = data@.subrange(0, i as int);
            let one = seq![data@[i as int]];
            assert(data@.subrange(0, i as int + 1) =~= pre + one);
            lemma_seq_remove_concat(pre, one, id);
            assert(one.drop_first() =~= Seq::<u64>::empty());
            assert(seq_remove(Seq::<u64>::empty(), id) =~= Seq::<u64>::empty());
            if x == id {
                assert(seq_remove(one, id) =~= Seq::<u64>::empty());
                assert(seq_remove(pre, id) + seq_remove(one, id) =~= seq_remove(pre, id));
            } else {
                assert(seq_remove(one, id) =~= one);
                assert(seq_remove(pre, id) + one =~= seq_remove(pre, id).push(x));
            }
        }
        if x != id {
            out.push(x);
        }
        i = i + 1;
    }
    proof {
        assert(data@.subrange(0, data@.len() as int) =~= data@);
    }
    Some(out)
}

} // verus!
