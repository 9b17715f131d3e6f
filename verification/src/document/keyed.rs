//! Association lists keyed by a string, where a later entry for a key
//! shadows an earlier one: the runtime's per-document tables and the TOML
//! array counts.
use vstd::prelude::*;
use crate::text::str_eq;

verus! {

/// The value that the last entry for `k` holds.
pub open spec fn str_lookup<V>(s: Seq<(String, V)>, k: Seq<char>) -> Option<V>
    decreases s.len(),
{
    if s.len() == 0 {
        None
    } else if s.last().0@ == k {
        Some(s.last().1)
    } else {
        str_lookup(s.drop_last(), k)
    }
}

/// `i` is the last position of an entry for `k`.
pub open spec fn last_str_position<V>(s: Seq<(String, V)>, k: Seq<char>, i: int) -> bool {
    &&& 0 <= i < s.len()
    &&& s[i].0@ == k
    &&& forall|j: int| i < j < s.len() ==> s[j].0@ != k
}

pub proof fn lemma_str_lookup_absent<V>(s: Seq<(String, V)>, k: Seq<char>)
    requires
        forall|j: int| 0 <= j < s.len() ==> s[j].0@ != k,
    ensures
        str_lookup(s, k) is None,
    decreases s.len(),
{
    if s.len() > 0 {
        lemma_str_lookup_absent(s.drop_last(), k);
    }
}

pub proof fn lemma_str_lookup_at<V>(s: Seq<(String, V)>, k: Seq<char>, i: int)
    requires
        last_str_position(s, k, i),
    ensures
        str_lookup(s, k) == Some(s[i].1),
    decreases s.len(),
{
    if i < s.len() - 1 {
        lemma_str_lookup_at(s.drop_last(), k, i);
    }
}

/// Replacing the value at the last position of `k` is an update of the map.
pub proof fn lemma_str_update_at<V>(s: Seq<(String, V)>, k: Seq<char>, i: int, key: String, v: V, q: Seq<char>)
    requires
        last_str_position(s, k, i),
        key@ == k,
    ensures
        str_lookup(s.update(i, (key, v)), q) == (if q == k { Some(v) } else { str_lookup(s, q) }),
    decreases s.len(),
{
    let t = s.update(i, (key, v));
    if i == s.len() - 1 {
        assert(t.drop_last() =~= s.drop_last());
    } else {
        assert(t.drop_last() =~= s.drop_last().update(i, (key, v)));
        lemma_str_update_at(s.drop_last(), k, i, key, v, q);
    }
}

/// The last position of an entry for `k`, if there is one.
pub fn str_position<V>(v: &Vec<(String, V)>, k: &str) -> (r: Option<usize>)
    ensures
        r matches Some(i) ==> last_str_position(v@, k@, i as int) && str_lookup(v@, k@) == Some(v@[i as int].1),
        r is None ==> str_lookup(v@, k@) is None && forall|j: int| 0 <= j < v@.len() ==> v@[j].0@ != k@,
{
    let mut i: usize = v.len();
    while i > 0
        invariant
            i <= v@.len(),
            forall|j: int| i <= j < v@.len() ==> v@[j].0@ != k@,
        decreases i,
    {
        if str_eq(v[i - 1].0.as_str(), k) {
            proof {
                lemma_str_lookup_at(v@, k@, i - 1);
            }
            return Some(i - 1);
        }
        i = i - 1;
    }
    proof {
        lemma_str_lookup_absent(v@, k@);
    }
    None
}

/// Sets the value of `k`, in place where an entry exists, at the end
/// otherwise.
pub fn str_put<V>(v: &mut Vec<(String, V)>, k: String, val: V)
    ensures
        forall|q: Seq<char>| str_lookup(final(v)@, q) == (if q == k@ { Some(val) } else { str_lookup(old(v)@, q) }),
{
    match str_position(v, k.as_str()) {
        Some(i) => {
            let ghost k_view = k@;
            v.remove(i);
            v.insert(i, (k, val));
            proof {
                assert forall|q: Seq<char>| str_lookup(v@, q) == (if q == k_view { Some(val) } else { str_lookup(old(v)@, q) }) by {
                    assert(v@ =~= old(v)@.update(i as int, (v@[i as int].0, val)));
                    lemma_str_update_at(old(v)@, k_view, i as int, v@[i as int].0, val, q);
                }
            }
        },
        None => {
            let ghost k_view = k@;
            v.push((k, val));
            proof {
                assert forall|q: Seq<char>| str_lookup(v@, q) == (if q == k_view { Some(val) } else { str_lookup(old(v)@, q) }) by {
                    assert(v@.drop_last() =~= old(v)@);
                }
            }
        },
    }
}

} // verus!