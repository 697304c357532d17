use vstd::prelude::*;

verus! {

/// The path under which the executable for `program` is cached, if any: the
/// most recent entry for that program wins.
pub open spec fn lookup(entries: Seq<(Seq<u8>, Seq<char>)>, program: Seq<u8>) -> Option<Seq<char>>
    decreases entries.len(),
{
    if entries.len() == 0 {
        None
    } else if entries.last().0 == program {
        Some(entries.last().1)
    } else {
        lookup(entries.drop_last(), program)
    }
}

/// The entries after recording `path` for `program`.
pub open spec fn cache_insert(entries: Seq<(Seq<u8>, Seq<char>)>, program: Seq<u8>, path: Seq<char>) -> Seq<(Seq<u8>, Seq<char>)> {
    entries.push((program, path))
}

/// How many entries are for `program`.
pub open spec fn key_count(entries: Seq<(Seq<u8>, Seq<char>)>, program: Seq<u8>) -> nat
    decreases entries.len(),
{
    if entries.len() == 0 {
        0
    } else {
        key_count(entries.drop_last(), program) + if entries.last().0 == program {
            1nat
        } else {
            0nat
        }
    }
}

/// Each program has at most one entry.
pub open spec fn keys_unique(entries: Seq<(Seq<u8>, Seq<char>)>) -> bool {
    forall|q: Seq<u8>| #[trigger] key_count(entries, q) <= 1
}

/// The entries without those for `program`.
pub open spec fn entries_without(entries: Seq<(Seq<u8>, Seq<char>)>, program: Seq<u8>) -> Seq<(Seq<u8>, Seq<char>)> {
    entries.filter(|e: (Seq<u8>, Seq<char>)| e.0 != program)
}

/// Whether the two byte strings are equal.
pub fn bytes_equal(a: &[u8], b: &[u8]) -> (r: bool)
    ensures
        r == (a@ == b@),
{
    if a.len() != b.len() {
        return false;
    }
    let mut i: usize = 0;
    while i < a.len()
        invariant
            a@.len() == b@.len(),
            i <= a@.len(),
            a@.subrange(0, i as int) == b@.subrange(0, i as int),
        decreases a@.len() - i,
    {
        if a[i] != b[i] {
            assert(a@[i as int] != b@[i as int]);
            return false;
        }
        i = i + 1;
        assert(a@.subrange(0, i as int) =~= b@.subrange(0, i as int)) by {
            assert(a@.subrange(0, i as int) =~= a@.subrange(0, i - 1 as int).push(a@[i - 1 as int]));
            assert(b@.subrange(0, i as int) =~= b@.subrange(0, i - 1 as int).push(b@[i - 1 as int]));
        }
    }
    assert(a@ =~= a@.subrange(0, i as int));
    assert(b@ =~= b@.subrange(0, i as int));
    true
}

/// A worker's record of the programs it has built: each program's bytes, and
/// the path of the executable built from them.
pub struct CompileCache {
    entries: Vec<(Vec<u8>, String)>,
}

impl CompileCache {
    /// The entries, oldest first, as plain values.
    pub closed spec fn entries(&self) -> Seq<(Seq<u8>, Seq<char>)> {
        self.entries@.map_values(|e: (Vec<u8>, String)| (e.0@, e.1@))
    }

    /// Each program has at most one entry.
    pub open spec fn wf(&self) -> bool {
        keys_unique(self.entries())
    }

    pub fn new() -> (r: Self)
        ensures
            r.wf(),
            r.entries() == Seq::<(Seq<u8>, Seq<char>)>::empty(),
    {
        CompileCache { entries: Vec::new() }
    }

    /// The path of the executable built from `program`, if there is one.
    pub fn get(&self, program: &[u8]) -> (r: Option<String>)
        ensures
            r matches Some(p) ==> lookup(self.entries(), program@) == Some(p@),
            r is None ==> lookup(self.entries(), program@) is None,
    {
        let mut i: usize = self.entries.len();
        assert(self.entries().subrange(0, i as int) =~= self.entries());
        while i > 0
            invariant
                i <= self.entries@.len(),
                lookup(self.entries(), program@) == lookup(self.entries().subrange(0, i as int), program@),
            decreases i,
        {
            let ghost s = self.entries().subrange(0, i as int);
            assert(s.drop_last() =~= self.entries().subrange(0, i - 1));
            i = i - 1;
            if bytes_equal(self.entries[i].0.as_slice(), program) {
                return Some(self.entries[i].1.clone());
            }
        }
        None
    }

    /// Records that `path` holds the executable built from `program`,
    /// replacing what was recorded for it before.
    pub fn insert(&mut self, program: &[u8], path: String)
        requires
            old(self).wf(),
        ensures
            final(self).wf(),
            lookup(final(self).entries(), program@) == Some(path@),
            forall|q: Seq<u8>| q != program@ ==> #[trigger] lookup(final(self).entries(), q) == lookup(old(self).entries(), q),
            final(self).entries() == cache_insert(entries_without(old(self).entries(), program@), program@, path@),
    {
        self.remove(program);
        let ghost mid = self.entries();
        let bytes = vstd::slice::slice_to_vec(program);
        self.entries.push((bytes, path));
        proof {
            lemma_lookup_filter(old(self).entries(), program@);
            assert(self.entries().drop_last() =~= mid);
            assert forall|q: Seq<u8>| q != program@ implies #[trigger] lookup(self.entries(), q) == lookup(old(self).entries(), q) by {
                assert(lookup(mid, q) == lookup(old(self).entries(), q));
            }
            assert forall|q: Seq<u8>| #[trigger] key_count(self.entries(), q) <= 1 by {
                assert(key_count(mid, q) <= 1);
                if q == program@ {
                    assert(key_count(mid, q) == 0);
                }
            }
        }
    }

    /// Forgets the executable built from `program` and returns its path, if
    /// there was one.
    pub fn remove(&mut self, program: &[u8]) -> (r: Option<String>)
        requires
            old(self).wf(),
        ensures
            final(self).wf(),
            r matches Some(p) ==> lookup(old(self).entries(), program@) == Some(p@),
            r is None ==> lookup(old(self).entries(), program@) is None,
            lookup(final(self).entries(), program@) is None,
            forall|q: Seq<u8>| q != program@ ==> #[trigger] lookup(final(self).entries(), q) == lookup(old(self).entries(), q),
            final(self).entries() == entries_without(old(self).entries(), program@),
    {
        let r = self.get(program);
        let mut kept: Vec<(Vec<u8>, String)> = Vec::new();
        let mut i: usize = 0;
        let ghost all = old(self).entries();
        while i < self.entries.len()
            invariant
                *self == *old(self),
                all == self.entries(),
                i <= self.entries@.len(),
                kept@.map_values(|e: (Vec<u8>, String)| (e.0@, e.1@)) == entries_without(all.subrange(0, i as int), program@),
            decreases self.entries@.len() - i,
        {
            let ghost pre = all.subrange(0, i as int);
            assert(all.subrange(0, i + 1) =~= pre.push(all[i as int]));
            reveal(Seq::filter);
            assert(entries_without(all.subrange(0, i + 1), program@) == {
                let f = entries_without(pre, program@);
                if all[i as int].0 != program@ { f.push(all[i as int]) } else { f }
            }) by {
                assert(all.subrange(0, i + 1).drop_last() =~= pre);
            }
            if !bytes_equal(self.entries[i].0.as_slice(), program) {
                let e = (slice_copy(self.entries[i].0.as_slice()), self.entries[i].1.clone());
                kept.push(e);
                assert(kept@.map_values(|e: (Vec<u8>, String)| (e.0@, e.1@)) =~= entries_without(pre, program@).push(all[i as int]));
            }
            i = i + 1;
        }
        assert(all.subrange(0, i as int) =~= all);
        self.entries = kept;
        proof {
            lemma_lookup_filter(all, program@);
            assert forall|q: Seq<u8>| #[trigger] key_count(self.entries(), q) <= 1 by {
                assert(key_count(all, q) <= 1);
            }
        }
        r
    }

    /// The paths of every cached executable, oldest first.
    pub fn paths(&self) -> (r: Vec<String>)
        ensures
            r@.len() == self.entries().len(),
            forall|i: int| 0 <= i < r@.len() ==> (#[trigger] r@[i])@ == self.entries()[i].1,
    {
        let mut r: Vec<String> = Vec::new();
        let mut i: usize = 0;
        while i < self.entries.len()
            invariant
                i <= self.entries@.len(),
                r@.len() == i,
                forall|j: int| 0 <= j < i ==> (#[trigger] r@[j])@ == self.entries()[j].1,
            decreases self.entries@.len() - i,
        {
            r.push(self.entries[i].1.clone());
            i = i + 1;
        }
        r
    }
}

/// Copies a byte slice.
fn slice_copy(b: &[u8]) -> (r: Vec<u8>)
    ensures
        r@ == b@,
{
    vstd::slice::slice_to_vec(b)
}

/// Dropping every entry for `program` makes it unknown and keeps every other
/// program's path.
pub proof fn lemma_lookup_filter(entries: Seq<(Seq<u8>, Seq<char>)>, program: Seq<u8>)
    ensures
        lookup(entries_without(entries, program), program) is None,
        forall|q: Seq<u8>|
            q != program ==> #[trigger] lookup(entries_without(entries, program), q) == lookup(entries, q),
        key_count(entries_without(entries, program), program) == 0,
        forall|q: Seq<u8>|
            q != program ==> #[trigger] key_count(entries_without(entries, program), q) == key_count(entries, q),
    decreases entries.len(),
{
    reveal(Seq::filter);
    if entries.len() > 0 {
        let d = entries.drop_last();
        lemma_lookup_filter(d, program);
        let f = entries_without(entries, program);
        let g = entries_without(d, program);
        if entries.last().0 != program {
            assert(f == g.push(entries.last()));
            assert(f.drop_last() =~= g);
        } else {
            assert(f == g);
        }
        assert forall|q: Seq<u8>| q != program implies #[trigger] lookup(f, q) == lookup(entries, q) by {
            assert(lookup(g, q) == lookup(d, q));
        }
        assert forall|q: Seq<u8>| q != program implies #[trigger] key_count(f, q) == key_count(entries, q) by {
            assert(key_count(g, q) == key_count(d, q));
        }
    }
}

/// A program that was just built is found; any other program is found exactly
/// when it was found before.
pub proof fn lemma_cache_hit_after_insert(entries: Seq<(Seq<u8>, Seq<char>)>, program: Seq<u8>, path: Seq<char>, other: Seq<u8>)
    ensures
        lookup(cache_insert(entries, program, path), program) == Some(path),
        other != program ==> lookup(cache_insert(entries, program, path), other) == lookup(entries, other),
{
    assert(cache_insert(entries, program, path).drop_last() =~= entries);
}

} // verus!
