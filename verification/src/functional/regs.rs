//! Per-lane register files: named 64-bit registers.
use vstd::prelude::*;

verus! {

/// The value bound to `k` by the latest entry naming it.
pub open spec fn reg_lookup(s: Seq<(String, i64)>, k: Seq<char>) -> Option<i64>
    decreases s.len(),
{
    if s.len() == 0 {
        None
    } else if s.last().0@ == k {
        Some(s.last().1)
    } else {
        reg_lookup(s.drop_last(), k)
    }
}

/// A register file, kept as its entries in binding order.
#[derive(Debug, Clone)]
pub struct Registers {
    entries: Vec<(String, i64)>,
}

/// `after` binds `k` to `v` and agrees with `before` on every other name.
pub open spec fn regs_set(before: Registers, after: Registers, k: Seq<char>, v: i64) -> bool {
    forall|n: Seq<char>| #[trigger] after.get(n) == if n == k { Some(v) } else { before.get(n) }
}

/// Looking up past an entry that does not name `k`.
proof fn lemma_lookup_update(s: Seq<(String, i64)>, i: int, k: Seq<char>, e: (String, i64), n: Seq<char>)
    requires
        0 <= i < s.len(),
        s[i].0@ == k,
        e.0@ == k,
        forall|m: int| i < m < s.len() ==> s[m].0@ != k,
    ensures
        reg_lookup(s.update(i, e), n) == if n == k { Some(e.1) } else { reg_lookup(s, n) },
    decreases s.len(),
{
    let t = s.update(i, e);
    if i == s.len() - 1 {
        assert(t.drop_last() =~= s.drop_last());
    } else {
        assert(t.drop_last() =~= s.drop_last().update(i, e));
        lemma_lookup_update(s.drop_last(), i, k, e, n);
    }
}

impl Registers {
    /// The value of register `k`, if bound.
    pub closed spec fn get(&self, k: Seq<char>) -> Option<i64> {
        reg_lookup(self.entries@, k)
    }

    /// The bound names with their values, in binding order.
    pub closed spec fn entries(&self) -> Seq<(String, i64)> {
        self.entries@
    }

    /// An empty register file.
    pub fn new() -> (r: Self)
        ensures
            forall|n: Seq<char>| #[trigger] r.get(n) is None,
    {
        Registers { entries: Vec::new() }
    }

    /// The value of register `name`, if bound.
    pub fn lookup(&self, name: &str) -> (r: Option<i64>)
        ensures
            r == self.get(name@),
    {
        let mut i: usize = self.entries.len();
        assert(self.entries@.subrange(0, i as int) =~= self.entries@);
        while i > 0
            invariant
                i <= self.entries@.len(),
                reg_lookup(self.entries@, name@) == reg_lookup(self.entries@.subrange(0, i as int), name@),
            decreases i,
        {
            let ghost sub = self.entries@.subrange(0, i as int);
            assert(sub.drop_last() =~= self.entries@.subrange(0, i - 1));
            if crate::text::str_eq(self.entries[i - 1].0.as_str(), name) {
                return Some(self.entries[i - 1].1);
            }
            i = i - 1;
        }
        None
    }

    /// Binds `name` to `v`, keeping every other binding.
    pub fn set(&mut self, name: &str, v: i64)
        ensures
            regs_set(*old(self), *final(self), name@, v),
    {
        let mut i: usize = self.entries.len();
        while i > 0
            invariant
                i <= self.entries@.len(),
                self.entries@ == old(self).entries@,
                forall|m: int| i <= m < self.entries@.len() ==> self.entries@[m].0@ != name@,
            decreases i,
        {
            if crate::text::str_eq(self.entries[i - 1].0.as_str(), name) {
                let e = (crate::text::owned(name), v);
                let ghost s = self.entries@;
                self.entries.set(i - 1, e);
                proof {
                    assert forall|n: Seq<char>| #[trigger] self.get(n) == if n == name@ {
                        Some(v)
                    } else {
                        old(self).get(n)
                    } by {
                        lemma_lookup_update(s, i - 1, name@, e, n);
                    }
                }
                return;
            }
            i = i - 1;
        }
        let ghost s = self.entries@;
        self.entries.push((crate::text::owned(name), v));
        proof {
            assert forall|n: Seq<char>| #[trigger] self.get(n) == if n == name@ {
                Some(v)
            } else {
                old(self).get(n)
            } by {
                assert(self.entries@.drop_last() =~= s);
            }
        }
    }

    /// A copy of the bindings, in binding order.
    pub fn snapshot(&self) -> (r: Vec<(String, i64)>)
        ensures
            r@ == self.entries(),
    {
        let mut out: Vec<(String, i64)> = Vec::new();
        let mut i: usize = 0;
        while i < self.entries.len()
            invariant
                i <= self.entries@.len(),
                out@ == self.entries@.subrange(0, i as int),
            decreases self.entries@.len() - i,
        {
            let e = (self.entries[i].0.clone(), self.entries[i].1);
            out.push(e);
            assert(out@ =~= self.entries@.subrange(0, i + 1));
            i = i + 1;
        }
        assert(self.entries@.subrange(0, self.entries@.len() as int) =~= self.entries@);
        out
    }
}

} // verus!
