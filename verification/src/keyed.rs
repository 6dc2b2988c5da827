//! Maps held as keyed lists `Vec<(String, V)>`: a key's value is that of its first
//! entry, and a well-formed list has each key once.

use vstd::prelude::*;
use crate::text::chars_of;
use crate::expr::chars_eq;

verus! {

/// The value stored under `k`: that of the first entry with key `k`.
pub open spec fn entry_of<V>(m: Seq<(String, V)>, k: Seq<char>) -> Option<V>
    decreases m.len(),
{
    if m.len() == 0 {
        None
    } else if m[0].0@ == k {
        Some(m[0].1)
    } else {
        entry_of(m.drop_first(), k)
    }
}

/// No key occurs twice.
pub open spec fn keys_unique<V>(m: Seq<(String, V)>) -> bool {
    forall|i: int, j: int| 0 <= i < j < m.len() ==> (#[trigger] m[i]).0@ != (#[trigger] m[j]).0@
}

pub proof fn lemma_entry_first<V>(m: Seq<(String, V)>, k: Seq<char>, i: int)
    requires
        0 <= i < m.len(),
        m[i].0@ == k,
        forall|j: int| 0 <= j < i ==> (#[trigger] m[j]).0@ != k,
    ensures
        entry_of(m, k) == Some(m[i].1),
    decreases i,
{
    if i > 0 {
        assert(m[0].0@ != k);
        let t = m.drop_first();
        assert forall|j: int| 0 <= j < i - 1 implies (#[trigger] t[j]).0@ != k by {
            assert(t[j] == m[j + 1]);
        }
        lemma_entry_first(t, k, i - 1);
    }
}

pub proof fn lemma_entry_none<V>(m: Seq<(String, V)>, k: Seq<char>)
    requires
        forall|j: int| 0 <= j < m.len() ==> (#[trigger] m[j]).0@ != k,
    ensures
        entry_of(m, k) is None,
    decreases m.len(),
{
    if m.len() > 0 {
        assert(m[0].0@ != k);
        let t = m.drop_first();
        assert forall|j: int| 0 <= j < t.len() implies (#[trigger] t[j]).0@ != k by {
            assert(t[j] == m[j + 1]);
        }
        lemma_entry_none(t, k);
    }
}

/// Replacing the value of entry `i` (its key kept) leaves every other key's value alone.
pub proof fn lemma_entry_update_other<V>(m: Seq<(String, V)>, i: int, e: (String, V), k: Seq<char>)
    requires
        0 <= i < m.len(),
        e.0@ == m[i].0@,
        k != e.0@,
    ensures
        entry_of(m.update(i, e), k) == entry_of(m, k),
    decreases m.len(),
{
    let u = m.update(i, e);
    if i == 0 {
        assert(u.drop_first() =~= m.drop_first());
    } else {
        assert(u.drop_first() =~= m.drop_first().update(i - 1, e));
        lemma_entry_update_other(m.drop_first(), i - 1, e, k);
    }
}

pub proof fn lemma_entry_push<V>(m: Seq<(String, V)>, e: (String, V), k: Seq<char>)
    ensures
        entry_of(m.push(e), k) == (match entry_of(m, k) {
            Some(v) => Some(v),
            None => if e.0@ == k {
                Some(e.1)
            } else {
                None
            },
        }),
    decreases m.len(),
{
    let p = m.push(e);
    if m.len() == 0 {
        assert(p.drop_first() =~= Seq::<(String, V)>::empty());
        assert(p[0] == e);
        assert(entry_of(p.drop_first(), k) is None);
    } else {
        assert(p.drop_first() =~= m.drop_first().push(e));
        assert(p[0] == m[0]);
        lemma_entry_push(m.drop_first(), e, k);
    }
}

/// Index of the first entry with key `k`.
pub fn find_key<V>(m: &Vec<(String, V)>, k: &[char]) -> (r: Option<usize>)
    ensures
        match r {
            Some(i) => i < m@.len() && m@[i as int].0@ == k@ && forall|j: int|
                0 <= j < i ==> (#[trigger] m@[j]).0@ != k@,
            None => forall|j: int| 0 <= j < m@.len() ==> (#[trigger] m@[j]).0@ != k@,
        },
{
    let mut i: usize = 0;
    while i < m.len()
        invariant
            i <= m@.len(),
            forall|j: int| 0 <= j < i ==> (#[trigger] m@[j]).0@ != k@,
        decreases m.len() - i,
    {
        let kc = chars_of(m[i].0.as_str());
        if chars_eq(&kc, k) {
            return Some(i);
        }
        i = i + 1;
    }
    None
}

pub proof fn lemma_unique_update<V>(m: Seq<(String, V)>, i: int, e: (String, V))
    requires
        keys_unique(m),
        0 <= i < m.len(),
        e.0@ == m[i].0@,
    ensures
        keys_unique(m.update(i, e)),
{
    let u = m.update(i, e);
    assert forall|a: int, b: int| 0 <= a < b < u.len() implies (#[trigger] u[a]).0@ != (
    #[trigger] u[b]).0@ by {
        assert(u[a].0@ == m[a].0@);
        assert(u[b].0@ == m[b].0@);
    }
}

pub proof fn lemma_unique_push<V>(m: Seq<(String, V)>, e: (String, V))
    requires
        keys_unique(m),
        forall|j: int| 0 <= j < m.len() ==> (#[trigger] m[j]).0@ != e.0@,
    ensures
        keys_unique(m.push(e)),
{
    let u = m.push(e);
    assert forall|a: int, b: int| 0 <= a < b < u.len() implies (#[trigger] u[a]).0@ != (
    #[trigger] u[b]).0@ by {
        assert(u[a] == m[a]);
        if b < m.len() {
            assert(u[b] == m[b]);
        }
    }
}

} // verus!
