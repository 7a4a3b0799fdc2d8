//! An ordered header mapping: names are kept lower-cased by the callers, a
//! later insertion under an existing name replaces its value in place, and
//! insertion order is preserved for request framing.

use vstd::prelude::*;

verus! {

/// What inserting `(k, v)` into an entry sequence yields: the first entry
/// named `k` is replaced, or `(k, v)` is appended when none is.
pub open spec fn insert_entry(
    es: Seq<(Seq<char>, Seq<char>)>,
    k: Seq<char>,
    v: Seq<char>,
) -> Seq<(Seq<char>, Seq<char>)>
    decreases es.len(),
{
    if es.len() == 0 {
        seq![(k, v)]
    } else if es[0].0 == k {
        seq![(k, v)] + es.subrange(1, es.len() as int)
    } else {
        seq![es[0]] + insert_entry(es.subrange(1, es.len() as int), k, v)
    }
}

/// Header names and values, in insertion order.
#[derive(Debug)]
pub struct HeaderMap {
    pub entries: Vec<(String, String)>,
}

impl HeaderMap {
    /// The entries as sequences of characters, in insertion order.
    pub open spec fn entries_view(&self) -> Seq<(Seq<char>, Seq<char>)> {
        Seq::new(self.entries@.len(), |i: int| (self.entries@[i].0@, self.entries@[i].1@))
    }

    /// No name occurs twice.
    pub open spec fn wf(&self) -> bool {
        forall|i: int, j: int|
            0 <= i < j < self.entries@.len() ==> (#[trigger] self.entries@[i]).0@ != (
            #[trigger] self.entries@[j]).0@
    }

    pub fn new() -> (r: HeaderMap)
        ensures
            r.wf(),
            r.entries_view() == Seq::<(Seq<char>, Seq<char>)>::empty(),
    {
        let r = HeaderMap { entries: Vec::new() };
        assert(r.entries_view() =~= Seq::<(Seq<char>, Seq<char>)>::empty());
        r
    }

    /// Stores `value` under `name`: replaces the value of an existing entry of
    /// that name, or appends a new entry.
    #[verifier::loop_isolation(false)]
    pub fn insert(&mut self, name: String, value: String)
        requires
            old(self).wf(),
        ensures
            final(self).wf(),
            final(self).entries_view() == insert_entry(old(self).entries_view(), name@, value@),
    {
        let mut i: usize = 0;
        while i < self.entries.len()
            invariant
                self.entries@ == old(self).entries@,
                i <= self.entries@.len(),
                forall|j: int| 0 <= j < i ==> (#[trigger] self.entries@[j]).0@ != name@,
            decreases self.entries@.len() - i,
        {
            if self.entries[i].0 == name {
                let ghost pre = self.entries@;
                let _ = self.entries.remove(i);
                self.entries.insert(i, (name, value));
                proof {
                    assert(self.entries@ =~= pre.update(i as int, (name, value)));
                    assert(self.entries_view() =~= old(self).entries_view().update(
                        i as int,
                        (name@, value@),
                    ));
                    lemma_insert_entry_found(old(self).entries_view(), name@, value@, i as int);
                }
                return;
            }
            i += 1;
        }
        self.entries.push((name, value));
        proof {
            assert(forall|j: int|
                0 <= j < old(self).entries_view().len()
                    ==> #[trigger] old(self).entries_view()[j].0 != name@);
            lemma_insert_entry_missing(old(self).entries_view(), name@, value@);
            assert(self.entries_view() =~= old(self).entries_view().push((name@, value@)));
        }
    }

    /// How many entries the map holds.
    pub fn len(&self) -> (n: usize)
        ensures
            n == self.entries_view().len(),
    {
        self.entries.len()
    }
}

proof fn lemma_insert_entry_found(es: Seq<(Seq<char>, Seq<char>)>, k: Seq<char>, v: Seq<char>, i: int)
    requires
        0 <= i < es.len(),
        es[i].0 == k,
        forall|j: int| 0 <= j < i ==> #[trigger] es[j].0 != k,
    ensures
        insert_entry(es, k, v) == es.update(i, (k, v)),
    decreases i,
{
    if i == 0 {
        assert(seq![(k, v)] + es.subrange(1, es.len() as int) =~= es.update(0, (k, v)));
    } else {
        let t = es.subrange(1, es.len() as int);
        assert(forall|j: int| 0 <= j < i - 1 ==> #[trigger] t[j].0 != k);
        lemma_insert_entry_found(t, k, v, i - 1);
        assert(seq![es[0]] + t.update(i - 1, (k, v)) =~= es.update(i, (k, v)));
    }
}

proof fn lemma_insert_entry_missing(es: Seq<(Seq<char>, Seq<char>)>, k: Seq<char>, v: Seq<char>)
    requires
        forall|j: int| 0 <= j < es.len() ==> #[trigger] es[j].0 != k,
    ensures
        insert_entry(es, k, v) == es.push((k, v)),
    decreases es.len(),
{
    if es.len() == 0 {
        assert(insert_entry(es, k, v) =~= es.push((k, v)));
    } else {
        let t = es.subrange(1, es.len() as int);
        lemma_insert_entry_missing(t, k, v);
        assert(seq![es[0]] + t.push((k, v)) =~= es.push((k, v)));
    }
}

} // verus!
