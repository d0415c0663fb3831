//! An in-memory mapping from contig name to its full base sequence,
//! read-only after loading. Duplicate names resolve last-write-wins.

use vstd::prelude::*;

verus! {

/// A single named reference sequence.
pub struct Contig {
    pub name: Vec<u8>,
    pub seq: Vec<u8>,
}

/// The sequence stored under `name`, if any; the entry inserted last wins.
pub open spec fn spec_lookup(entries: Seq<Contig>, name: Seq<u8>) -> Option<Seq<u8>>
    decreases entries.len(),
{
    if entries.len() == 0 {
        None
    } else if entries.last().name@ == name {
        Some(entries.last().seq@)
    } else {
        spec_lookup(entries.drop_last(), name)
    }
}

/// Compares two byte strings for equality.
pub fn bytes_eq(a: &Vec<u8>, b: &Vec<u8>) -> (r: bool)
    ensures
        r == (a@ == b@),
{
    if a.len() != b.len() {
        return false;
    }
    let mut i: usize = 0;
    while i < a.len()
        invariant
            i <= a@.len(),
            a@.len() == b@.len(),
            forall|j: int| 0 <= j < i ==> a@[j] == b@[j],
        decreases a@.len() - i,
    {
        if a[i] != b[i] {
            return false;
        }
        i = i + 1;
    }
    proof {
        assert(a@ =~= b@);
    }
    true
}

/// The contig mapping: a load-once store of named reference sequences.
pub struct ReferenceStore {
    entries: Vec<Contig>,
}

impl View for ReferenceStore {
    type V = Seq<Contig>;

    closed spec fn view(&self) -> Seq<Contig> {
        self.entries@
    }
}

impl ReferenceStore {
    /// An empty store.
    pub fn new() -> (s: Self)
        ensures
            s@ == Seq::<Contig>::empty(),
    {
        ReferenceStore { entries: Vec::new() }
    }

    /// Adds one contig; a later entry under the same name shadows an
    /// earlier one.
    pub fn insert(&mut self, name: Vec<u8>, seq: Vec<u8>)
        ensures
            final(self)@ == old(self)@.push((Contig { name, seq })),
    {
        self.entries.push(Contig { name, seq });
    }

    /// How many entries were inserted (duplicates counted).
    pub fn len(&self) -> (n: usize)
        ensures
            n == self@.len(),
    {
        self.entries.len()
    }

    /// Looks a contig up by name; of entries sharing a name, the one
    /// inserted last is returned.
    pub fn get(&self, name: &Vec<u8>) -> (r: Option<&Vec<u8>>)
        ensures
            match r {
                Some(s) => spec_lookup(self@, name@) == Some(s@),
                None => spec_lookup(self@, name@) is None,
            },
    {
        let mut i: usize = self.entries.len();
        proof {
            assert(self.entries@.take(i as int) =~= self.entries@);
        }
        while i > 0
            invariant
                i <= self.entries@.len(),
                spec_lookup(self@, name@) == spec_lookup(self.entries@.take(i as int), name@),
            decreases i,
        {
            i = i - 1;
            let e = &self.entries[i];
            proof {
                assert(self.entries@.take(i + 1).last() == self.entries@[i as int]);
                assert(self.entries@.take(i + 1).drop_last() =~= self.entries@.take(i as int));
            }
            if bytes_eq(&e.name, name) {
                return Some(&e.seq);
            }
        }
        proof {
            assert(self.entries@.take(0) =~= Seq::<Contig>::empty());
        }
        None
    }
}

/// Looking a name up right after inserting it finds the new sequence;
/// any other name resolves as before the insertion.
pub proof fn lemma_lookup_push(entries: Seq<Contig>, c: Contig, name: Seq<u8>)
    ensures
        c.name@ == name ==> spec_lookup(entries.push(c), name) == Some(c.seq@),
        c.name@ != name ==> spec_lookup(entries.push(c), name) == spec_lookup(entries, name),
{
    assert(entries.push(c).last() == c);
    assert(entries.push(c).drop_last() =~= entries);
}

} // verus!
