//! The de-duplication ledger: the process-lifetime record of local file
//! paths already confirmed this run (freshly downloaded, or inspected as
//! pre-existing). Entries are never removed; recording is idempotent.

use vstd::prelude::*;
use vstd::seq_lib::seq_to_set_is_finite;
use vstd::set::axiom_set_insert_len;

verus! {

/// The set of local file paths this run has confirmed.
pub struct DedupLedger {
    entries: Vec<String>,
}

impl View for DedupLedger {
    type V = Set<Seq<char>>;

    /// A ledger is read as the set of paths it holds.
    closed spec fn view(&self) -> Set<Seq<char>> {
        self.entries@.map_values(|e: String| e@).to_set()
    }
}

impl DedupLedger {
    /// A fresh ledger holds nothing; it is a finite record.
    pub fn new() -> (l: DedupLedger)
        ensures
            l@ == Set::<Seq<char>>::empty(),
            l@.finite(),
    {
        let l = DedupLedger { entries: Vec::new() };
        proof {
            broadcast use seq_to_set_is_finite;

            assert(l@ =~= Set::<Seq<char>>::empty());
            assert(l@.finite());
        }
        l
    }

    /// True exactly when `path` was recorded before by this process.
    pub fn contains(&self, path: &String) -> (r: bool)
        ensures
            r == self@.contains(path@),
    {
        let mut k: usize = 0;
        while k < self.entries.len()
            invariant
                k <= self.entries.len(),
                forall|m: int| 0 <= m < k ==> #[trigger] self.entries@[m]@ != path@,
            decreases self.entries.len() - k,
        {
            let ek = &self.entries[k];
            if ek.eq(path) {
                proof {
                    let mapped = self.entries@.map_values(|e: String| e@);
                    assert(mapped[k as int] == path@);
                    assert(mapped.contains(path@));
                }
                return true;
            }
            k = k + 1;
        }
        proof {
            let mapped = self.entries@.map_values(|e: String| e@);
            if mapped.contains(path@) {
                let m = choose|m: int| 0 <= m < mapped.len() && mapped[m] == path@;
                assert(self.entries@[m]@ == path@);
            }
        }
        false
    }

    /// Records `path`. Idempotent: the ledger afterwards is the old set
    /// with `path` added, so it never loses an entry and never shrinks.
    pub fn record(&mut self, path: &String)
        requires
            old(self)@.finite(),
        ensures
            final(self)@ == old(self)@.insert(path@),
            final(self)@.finite(),
            old(self)@.subset_of(final(self)@),
            final(self)@.len() >= old(self)@.len(),
    {
        let present = self.contains(path);
        if !present {
            let ghost entries0 = self.entries@;
            self.entries.push(path.clone());
            proof {
                let m0 = entries0.map_values(|e: String| e@);
                let m1 = self.entries@.map_values(|e: String| e@);
                assert(m1 =~= m0.push(path@));
                assert forall|p: Seq<char>| m1.contains(p) <==> (m0.contains(p) || p == path@) by {
                    if m1.contains(p) {
                        let m = choose|m: int| 0 <= m < m1.len() && m1[m] == p;
                        if m < m0.len() {
                            assert(m0[m] == p);
                        }
                    }
                    if m0.contains(p) {
                        let m = choose|m: int| 0 <= m < m0.len() && m0[m] == p;
                        assert(m1[m] == p);
                    }
                    if p == path@ {
                        assert(m1[m1.len() - 1] == p);
                    }
                }
                assert(self@ =~= old(self)@.insert(path@));
            }
        } else {
            proof {
                assert(self@ =~= old(self)@.insert(path@));
            }
        }
        proof {
            broadcast use seq_to_set_is_finite;
            broadcast use axiom_set_insert_len;

            assert(self@.finite());
            assert(old(self)@.insert(path@).len() == old(self)@.len() + (if old(self)@.contains(
                path@,
            ) {
                0int
            } else {
                1int
            }));
        }
    }

    /// How many distinct paths the ledger holds.
    pub fn len(&self) -> (n: usize)
        ensures
            n == self@.len(),
    {
        proof {
            broadcast use seq_to_set_is_finite;
            broadcast use vstd::set::group_set_axioms;

            assert(self.entries@.take(0).map_values(|e: String| e@).to_set() =~= Set::<
                Seq<char>,
            >::empty());
            assert(self.entries@.take(0).map_values(|e: String| e@).to_set().len() == 0);
        }
        let mut k: usize = 0;
        let mut n: usize = 0;
        while k < self.entries.len()
            invariant
                k <= self.entries.len(),
                n as int == self.entries@.take(k as int).map_values(|e: String| e@).to_set().len(),
                n <= k,
            decreases self.entries.len() - k,
        {
            let ek = &self.entries[k];
            let mut dup = false;
            let mut m: usize = 0;
            while m < k
                invariant
                    m <= k < self.entries.len(),
                    ek@ == self.entries@[k as int]@,
                    dup == exists|t: int|
                        0 <= t < m && #[trigger] self.entries@[t]@ == self.entries@[k as int]@,
                decreases k - m,
            {
                let em = &self.entries[m];
                if em.eq(ek) {
                    proof {
                        assert(self.entries@[m as int]@ == self.entries@[k as int]@);
                    }
                    dup = true;
                }
                m = m + 1;
            }
            proof {
                broadcast use seq_to_set_is_finite;
                broadcast use axiom_set_insert_len;

                let tk = self.entries@.take(k as int).map_values(|e: String| e@);
                let tk1 = self.entries@.take(k + 1 as int).map_values(|e: String| e@);
                assert(tk1 =~= tk.push(self.entries@[k as int]@));
                assert forall|p: Seq<char>| tk1.contains(p) <==> (tk.contains(p) || p
                    == self.entries@[k as int]@) by {
                    if tk1.contains(p) {
                        let t = choose|t: int| 0 <= t < tk1.len() && tk1[t] == p;
                        if t < tk.len() {
                            assert(tk[t] == p);
                        }
                    }
                    if tk.contains(p) {
                        let t = choose|t: int| 0 <= t < tk.len() && tk[t] == p;
                        assert(tk1[t] == p);
                    }
                    if p == self.entries@[k as int]@ {
                        assert(tk1[tk1.len() - 1] == p);
                    }
                }
                assert(tk1.to_set() =~= tk.to_set().insert(self.entries@[k as int]@));
                assert(tk.to_set().finite());
                if dup {
                    let t = choose|t: int|
                        0 <= t < k && self.entries@[t]@ == self.entries@[k as int]@;
                    assert(tk[t] == self.entries@[k as int]@);
                    assert(tk.to_set().contains(self.entries@[k as int]@));
                    assert(tk1.to_set().len() == tk.to_set().len());
                } else {
                    if tk.contains(self.entries@[k as int]@) {
                        let t = choose|t: int| 0 <= t < tk.len() && tk[t]
                            == self.entries@[k as int]@;
                        assert(self.entries@[t]@ == self.entries@[k as int]@);
                    }
                    assert(tk1.to_set().len() == tk.to_set().len() + 1);
                }
            }
            if !dup {
                n = n + 1;
            }
            k = k + 1;
        }
        proof {
            assert(self.entries@.take(self.entries@.len() as int) =~= self.entries@);
        }
        n
    }
}

/// Records a confirmed file in the ledger, as the worker does after a
/// download or after finding the file already on disk.
pub fn mark_as_downloaded(ledger: &mut DedupLedger, file: &String)
    requires
        old(ledger)@.finite(),
    ensures
        final(ledger)@ == old(ledger)@.insert(file@),
        final(ledger)@.finite(),
        old(ledger)@.subset_of(final(ledger)@),
        final(ledger)@.len() >= old(ledger)@.len(),
{
    ledger.record(file)
}

} // verus!
