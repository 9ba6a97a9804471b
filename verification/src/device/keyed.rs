//! Small tables keyed by `u64` ids, held as vectors of (key, value) pairs
//! in which each key occurs at most once.
use vstd::prelude::*;

verus! {

/// No key occurs twice.
pub open spec fn keys_unique<V>(s: Seq<(u64, V)>) -> bool {
    forall|i: int, j: int| 0 <= i < j < s.len() ==> (#[trigger] s[i]).0 != (#[trigger] s[j]).0
}

/// Some entry has key `k`.
pub open spec fn has_key<V>(s: Seq<(u64, V)>, k: u64) -> bool {
    exists|i: int| 0 <= i < s.len() && (#[trigger] s[i]).0 == k
}

/// The value stored under `k`, if any.
pub open spec fn lookup<V>(s: Seq<(u64, V)>, k: u64) -> Option<V> {
    if has_key(s, k) {
        Some(s[choose|i: int| 0 <= i < s.len() && (#[trigger] s[i]).0 == k].1)
    } else {
        None
    }
}

/// With unique keys, the entry at `i` is what its key looks up.
pub proof fn lemma_lookup_at<V>(s: Seq<(u64, V)>, i: int)
    requires
        keys_unique(s),
        0 <= i < s.len(),
    ensures
        lookup(s, s[i].0) == Some(s[i].1),
{
    assert(has_key(s, s[i].0));
    let j = choose|j: int| 0 <= j < s.len() && (#[trigger] s[j]).0 == s[i].0;
    if j != i {
        if j < i {
            assert(s[j].0 != s[i].0);
        } else {
            assert(s[i].0 != s[j].0);
        }
    }
}

/// Index of the entry with key `k`.
pub fn find_key<V>(v: &Vec<(u64, V)>, k: u64) -> (r: Option<usize>)
    ensures
        r matches Some(i) ==> i < v@.len() && v@[i as int].0 == k,
        r is None ==> !has_key(v@, k),
{
    let mut i: usize = 0;
    while i < v.len()
        invariant
            i <= v@.len(),
            forall|j: int| 0 <= j < i ==> (#[trigger] v@[j]).0 != k,
        decreases v@.len() - i,
    {
        if v[i].0 == k {
            return Some(i);
        }
        i = i + 1;
    }
    None
}

/// Stores `val` under `k`, replacing what was there.
pub fn insert_key<V>(v: &mut Vec<(u64, V)>, k: u64, val: V)
    requires
        keys_unique(old(v)@),
    ensures
        keys_unique(final(v)@),
        forall|x: u64| #[trigger] lookup(final(v)@, x) == if x == k { Some(val) } else { lookup(old(v)@, x) },
{
    let ghost s0 = v@;
    match find_key(v, k) {
        Some(i) => {
            v.set(i, (k, val));
            proof {
                assert forall|x: u64| #[trigger] lookup(v@, x) == if x == k { Some(val) } else { lookup(s0, x) } by {
                    if x == k {
                        lemma_lookup_at(v@, i as int);
                    } else {
                        assert(has_key(v@, x) == has_key(s0, x)) by {
                            if has_key(s0, x) {
                                let j = choose|j: int| 0 <= j < s0.len() && (#[trigger] s0[j]).0 == x;
                                assert(v@[j].0 == x);
                            }
                            if has_key(v@, x) {
                                let j = choose|j: int| 0 <= j < v@.len() && (#[trigger] v@[j]).0 == x;
                                assert(s0[j].0 == x);
                            }
                        }
                        if has_key(s0, x) {
                            let j = choose|j: int| 0 <= j < s0.len() && (#[trigger] s0[j]).0 == x;
                            lemma_lookup_at(s0, j);
                            lemma_lookup_at(v@, j);
                        }
                    }
                }
            }
        },
        None => {
            v.push((k, val));
            proof {
                assert(keys_unique(v@)) by {
                    assert forall|i: int, j: int| 0 <= i < j < v@.len() implies (#[trigger] v@[i]).0 != (#[trigger] v@[j]).0 by {
                        if j == v@.len() - 1 {
                            assert(s0[i].0 != k);
                        } else {
                            assert(s0[i].0 != s0[j].0);
                        }
                    }
                }
                assert forall|x: u64| #[trigger] lookup(v@, x) == if x == k { Some(val) } else { lookup(s0, x) } by {
                    lemma_lookup_at(v@, v@.len() - 1);
                    if x != k {
                        assert(has_key(v@, x) == has_key(s0, x)) by {
                            if has_key(s0, x) {
                                let j = choose|j: int| 0 <= j < s0.len() && (#[trigger] s0[j]).0 == x;
                                assert(v@[j].0 == x);
                            }
                            if has_key(v@, x) {
                                let j = choose|j: int| 0 <= j < v@.len() && (#[trigger] v@[j]).0 == x;
                                assert(s0[j].0 == x);
                            }
                        }
                        if has_key(s0, x) {
                            let j = choose|j: int| 0 <= j < s0.len() && (#[trigger] s0[j]).0 == x;
                            lemma_lookup_at(s0, j);
                            lemma_lookup_at(v@, j);
                        }
                    }
                }
            }
        },
    }
}

/// Removes the entry with key `k`; the value it held.
pub fn remove_key<V>(v: &mut Vec<(u64, V)>, k: u64) -> (r: Option<V>)
    requires
        keys_unique(old(v)@),
    ensures
        keys_unique(final(v)@),
        r == lookup(old(v)@, k),
        r is Some ==> final(v)@.len() == old(v)@.len() - 1,
        r is None ==> final(v)@ == old(v)@,
        forall|x: u64| #[trigger] lookup(final(v)@, x) == if x == k { None } else { lookup(old(v)@, x) },
{
    let ghost s0 = v@;
    match find_key(v, k) {
        None => {
            assert forall|x: u64| #[trigger] lookup(v@, x) == if x == k { None } else { lookup(s0, x) } by {}
            None
        },
        Some(i) => {
            proof { lemma_lookup_at(s0, i as int); }
            let e = v.remove(i);
            proof {
                assert(v@ == s0.remove(i as int));
                assert(keys_unique(v@)) by {
                    assert forall|a: int, b: int| 0 <= a < b < v@.len() implies (#[trigger] v@[a]).0 != (#[trigger] v@[b]).0 by {
                        let oa = if a < i { a } else { a + 1 };
                        let ob = if b < i { b } else { b + 1 };
                        assert(s0[oa].0 != s0[ob].0);
                    }
                }
                assert forall|x: u64| #[trigger] lookup(v@, x) == if x == k { None } else { lookup(s0, x) } by {
                    if x == k {
                        if has_key(v@, x) {
                            let j = choose|j: int| 0 <= j < v@.len() && (#[trigger] v@[j]).0 == x;
                            let oj = if j < i { j } else { j + 1 };
                            if oj < i {
                                assert(s0[oj].0 != s0[i as int].0);
                            } else {
                                assert(s0[i as int].0 != s0[oj].0);
                            }
                        }
                    } else {
                        if has_key(s0, x) {
                            let j = choose|j: int| 0 <= j < s0.len() && (#[trigger] s0[j]).0 == x;
                            assert(j != i);
                            let nj = if j < i { j } else { j - 1 };
                            assert(v@[nj] == s0[j]);
                            lemma_lookup_at(s0, j);
                            lemma_lookup_at(v@, nj);
                        } else {
                            if has_key(v@, x) {
                                let j = choose|j: int| 0 <= j < v@.len() && (#[trigger] v@[j]).0 == x;
                                let oj = if j < i { j } else { j + 1 };
                                assert(s0[oj].0 == x);
                            }
                        }
                    }
                }
            }
            Some(e.1)
        },
    }
}

/// Index of the first entry whose value's first component is `owner`.
fn find_owned<W>(v: &Vec<(u64, (u64, W))>, owner: u64) -> (r: Option<usize>)
    ensures
        r matches Some(i) ==> i < v@.len() && v@[i as int].1.0 == owner,
        r is None ==> forall|i: int| 0 <= i < v@.len() ==> (#[trigger] v@[i]).1.0 != owner,
{
    let mut i: usize = 0;
    while i < v.len()
        invariant
            i <= v@.len(),
            forall|j: int| 0 <= j < i ==> (#[trigger] v@[j]).1.0 != owner,
        decreases v@.len() - i,
    {
        if v[i].1.0 == owner {
            return Some(i);
        }
        i = i + 1;
    }
    None
}

/// Drops the entries whose value's first component is `owner`.
pub fn remove_owned<W>(v: &mut Vec<(u64, (u64, W))>, owner: u64)
    requires
        keys_unique(old(v)@),
    ensures
        keys_unique(final(v)@),
        forall|x: u64| #[trigger] lookup(final(v)@, x) == match lookup(old(v)@, x) {
            Some(e) => if e.0 == owner { None } else { Some(e) },
            None => None,
        },
{
    let ghost s0 = v@;
    loop
        invariant
            s0 == old(v)@,
            keys_unique(v@),
            forall|x: u64|
                #[trigger] lookup(v@, x) == lookup(s0, x) || (lookup(v@, x) is None && (lookup(s0, x) matches Some(e)
                    && e.0 == owner)),
        decreases v@.len(),
    {
        match find_owned(v, owner) {
            None => {
                proof {
                    assert forall|x: u64| #[trigger] lookup(v@, x) == match lookup(s0, x) {
                        Some(e) => if e.0 == owner { None } else { Some(e) },
                        None => None,
                    } by {
                        if has_key(v@, x) {
                            let b = choose|b: int| 0 <= b < v@.len() && (#[trigger] v@[b]).0 == x;
                            lemma_lookup_at(v@, b);
                        }
                    }
                }
                return;
            },
            Some(i) => {
                let k = v[i].0;
                proof { lemma_lookup_at(v@, i as int); }
                let ghost before = v@;
                let _ = remove_key(v, k);
                proof {
                    assert forall|x: u64|
                        #[trigger] lookup(v@, x) == lookup(s0, x) || (lookup(v@, x) is None && (lookup(s0, x) matches Some(e)
                            && e.0 == owner)) by {
                        assert(lookup(before, x) == lookup(s0, x) || (lookup(before, x) is None && (lookup(s0, x) matches Some(e)
                            && e.0 == owner)));
                    }
                }
            },
        }
    }
}

} // verus!
