use vstd::prelude::*;

verus! {

/// The handle filed under the source text `src` in `entries`, if one is.
pub open spec fn find<H>(entries: Seq<(String, H)>, src: Seq<char>) -> Option<H>
    decreases entries.len(),
{
    if entries.len() == 0 {
        None
    } else if entries.last().0@ == src {
        Some(entries.last().1)
    } else {
        find(entries.drop_last(), src)
    }
}

/// No source text is filed twice.
pub open spec fn distinct<H>(entries: Seq<(String, H)>) -> bool {
    forall|i: int, j: int|
        0 <= i < j < entries.len() ==> (#[trigger] entries[i]).0@ != (#[trigger] entries[j]).0@
}

/// A source text that no entry holds is not found.
pub proof fn lemma_find_none<H>(entries: Seq<(String, H)>, src: Seq<char>)
    requires
        forall|i: int| 0 <= i < entries.len() ==> (#[trigger] entries[i]).0@ != src,
    ensures
        find(entries, src) is None,
    decreases entries.len(),
{
    if entries.len() > 0 {
        assert(entries.last() == entries[entries.len() - 1]);
        assert forall|i: int| 0 <= i < entries.drop_last().len() implies (
        #[trigger] entries.drop_last()[i]).0@ != src by {
            assert(entries.drop_last()[i] == entries[i]);
        }
        lemma_find_none(entries.drop_last(), src);
    }
}

/// Where no source text is filed twice, what is found under a source text is
/// the handle of the one entry that holds it.
pub proof fn lemma_find_at<H>(entries: Seq<(String, H)>, i: int)
    requires
        distinct(entries),
        0 <= i < entries.len(),
    ensures
        find(entries, entries[i].0@) == Some(entries[i].1),
    decreases entries.len(),
{
    let last = entries.len() - 1;
    assert(entries.last() == entries[last]);
    if i < last {
        assert(entries[i].0@ != entries[last].0@);
        assert forall|a: int, b: int| 0 <= a < b < entries.drop_last().len() implies (
        #[trigger] entries.drop_last()[a]).0@ != (#[trigger] entries.drop_last()[b]).0@ by {
            assert(entries.drop_last()[a] == entries[a]);
            assert(entries.drop_last()[b] == entries[b]);
        }
        assert(entries.drop_last()[i] == entries[i]);
        lemma_find_at(entries.drop_last(), i);
    }
}

/// Compiled kernels by the source text they were compiled from, one for each
/// source text.
pub struct SourceTable<H> {
    entries: Vec<(String, H)>,
}

impl<H: Copy> View for SourceTable<H> {
    type V = Seq<(String, H)>;

    closed spec fn view(&self) -> Seq<(String, H)> {
        self.entries@
    }
}

impl<H: Copy> SourceTable<H> {
    /// No source text is filed twice.
    pub open spec fn wf(&self) -> bool {
        distinct(self@)
    }

    /// A table without entries.
    pub fn new() -> (table: SourceTable<H>)
        ensures
            table@ == Seq::<(String, H)>::empty(),
            table.wf(),
    {
        SourceTable { entries: Vec::new() }
    }

    /// Number of entries.
    pub fn len(&self) -> (n: usize)
        ensures
            n == self@.len(),
    {
        self.entries.len()
    }

    /// Where `src` is filed, if it is.
    fn position(&self, key: &String) -> (at: Option<usize>)
        ensures
            at matches Some(i) ==> i < self@.len() && self@[i as int].0@ == key@,
            at is None ==> forall|i: int| 0 <= i < self@.len() ==> (#[trigger] self@[i]).0@ != key@,
    {
        let mut i: usize = 0;
        while i < self.entries.len()
            invariant
                i <= self.entries@.len(),
                forall|j: int| 0 <= j < i ==> (#[trigger] self.entries@[j]).0@ != key@,
            decreases self.entries@.len() - i,
        {
            if self.entries[i].0 == *key {
                return Some(i);
            }
            i = i + 1;
        }
        None
    }

    /// The handle filed under `src`, if one is.
    pub fn get(&self, src: &str) -> (found: Option<H>)
        requires
            self.wf(),
        ensures
            found == find(self@, src@),
    {
        let key = src.to_owned();
        match self.position(&key) {
            Some(i) => {
                proof {
                    lemma_find_at(self@, i as int);
                }
                Some(self.entries[i].1)
            },
            None => {
                proof {
                    lemma_find_none(self@, src@);
                }
                None
            },
        }
    }

    /// Files `handle` under `src`, in place of what was filed under `src`
    /// before. The table grows where nothing was.
    pub fn put(&mut self, src: &str, handle: H)
        requires
            old(self).wf(),
        ensures
            final(self).wf(),
            final(self)@.len() == old(self)@.len() + (if find(old(self)@, src@) is None {
                1int
            } else {
                0int
            }),
            forall|other: Seq<char>|
                #[trigger] find(final(self)@, other) == (if other == src@ {
                    Some(handle)
                } else {
                    find(old(self)@, other)
                }),
    {
        let key = src.to_owned();
        let ghost before = self.entries@;
        match self.position(&key) {
            Some(i) => {
                proof {
                    lemma_find_at(before, i as int);
                }
                self.entries.set(i, (key, handle));
                proof {
                    let after = self.entries@;
                    assert forall|a: int, b: int| 0 <= a < b < after.len() implies (
                    #[trigger] after[a]).0@ != (#[trigger] after[b]).0@ by {
                        assert(before[a].0@ != before[b].0@);
                    }
                    assert forall|other: Seq<char>|
                        #[trigger] find(after, other) == (if other == src@ {
                            Some(handle)
                        } else {
                            find(before, other)
                        }) by {
                        if other == src@ {
                            lemma_find_at(after, i as int);
                        } else if exists|j: int| 0 <= j < before.len() && (#[trigger] before[j]).0@
                            == other {
                            let j = choose|j: int| 0 <= j < before.len() && (#[trigger] before[j]).0@
                                == other;
                            assert(after[j] == before[j]);
                            lemma_find_at(after, j);
                            lemma_find_at(before, j);
                        } else {
                            assert forall|j: int| 0 <= j < after.len() implies (
                            #[trigger] after[j]).0@ != other by {
                                if j != i {
                                    assert(after[j] == before[j]);
                                }
                            }
                            lemma_find_none(after, other);
                            lemma_find_none(before, other);
                        }
                    }
                }
            },
            None => {
                proof {
                    lemma_find_none(before, src@);
                }
                self.entries.push((key, handle));
                proof {
                    let after = self.entries@;
                    assert(after.drop_last() =~= before);
                    assert forall|a: int, b: int| 0 <= a < b < after.len() implies (
                    #[trigger] after[a]).0@ != (#[trigger] after[b]).0@ by {
                        if b < before.len() {
                            assert(before[a].0@ != before[b].0@);
                        } else {
                            assert(after[a] == before[a]);
                        }
                    }
                }
            },
        }
    }
}

} // verus!
