//! The registry: the persisted mapping from OS name to install metadata, the
//! single source of truth for install history. This module owns the mapping
//! and serializes every mutation through `register`, `unregister` and
//! `mark_last_used`; its view is the mathematical map from name to record.

use vstd::prelude::*;
use crate::text::str_eq;

verus! {

broadcast use vstd::map::group_map_axioms, vstd::set::group_set_axioms;

/// The metadata the registry keeps for one installed OS. Timestamps are Unix
/// seconds.
#[derive(Clone, Debug)]
pub struct RegistryRecord {
    pub name: String,
    pub path: String,
    pub install_time: u64,
    pub last_used: Option<u64>,
    pub bootable: bool,
    pub size_mb: u64,
}

/// The mathematical value of one registry record.
pub ghost struct RecordView {
    pub name: Seq<char>,
    pub path: Seq<char>,
    pub install_time: u64,
    pub last_used: Option<u64>,
    pub bootable: bool,
    pub size_mb: u64,
}

impl View for RegistryRecord {
    type V = RecordView;

    open spec fn view(&self) -> RecordView {
        RecordView {
            name: self.name@,
            path: self.path@,
            install_time: self.install_time,
            last_used: self.last_used,
            bootable: self.bootable,
            size_mb: self.size_mb,
        }
    }
}

/// The registry. Its view is a map from OS name to the record stored under
/// that name.
#[derive(Clone, Debug)]
pub struct Registry {
    records: Vec<RegistryRecord>,
}

impl View for Registry {
    type V = Map<Seq<char>, RecordView>;

    closed spec fn view(&self) -> Map<Seq<char>, RecordView> {
        Map::new(
            |n: Seq<char>| exists|i: int| 0 <= i < self.records@.len() && self.records@[i].name@ == n,
            |n: Seq<char>|
                self.records@[choose|i: int|
                    0 <= i < self.records@.len() && self.records@[i].name@ == n]@,
        )
    }
}

impl Registry {
    /// Names are stored at most once.
    pub closed spec fn wf(&self) -> bool {
        forall|i: int, j: int|
            0 <= i < j < self.records@.len() ==> (#[trigger] self.records@[i]).name@ != (
            #[trigger] self.records@[j]).name@
    }

    /// The record stored at an index is what the map gives for its name.
    proof fn lemma_index_view(&self, i: int)
        requires
            self.wf(),
            0 <= i < self.records@.len(),
        ensures
            self@.dom().contains(self.records@[i].name@),
            self@[self.records@[i].name@] == self.records@[i]@,
    {
        let n = self.records@[i].name@;
        let j = choose|j: int| 0 <= j < self.records@.len() && self.records@[j].name@ == n;
        if i != j {
            if i < j {
                assert(self.records@[i].name@ != self.records@[j].name@);
            } else {
                assert(self.records@[j].name@ != self.records@[i].name@);
            }
        }
    }

    /// An empty registry; also what an unreadable or corrupt persisted
    /// registry degrades to.
    pub fn new() -> (r: Registry)
        ensures
            r.wf(),
            r@ == Map::<Seq<char>, RecordView>::empty(),
    {
        let r = Registry { records: Vec::new() };
        proof {
            assert(r@ =~= Map::<Seq<char>, RecordView>::empty());
        }
        r
    }

    /// Build a registry from persisted records. Records repeating an earlier
    /// name are dropped, so the result is well formed whatever was read.
    pub fn from_records(records: Vec<RegistryRecord>) -> (r: Registry)
        ensures
            r.wf(),
            forall|n: Seq<char>| #[trigger]
                r@.dom().contains(n) == exists|i: int|
                    0 <= i < records@.len() && (#[trigger] records@[i]).name@ == n,
    {
        let mut reg = Registry { records: Vec::new() };
        let mut i: usize = 0;
        while i < records.len()
            invariant
                i <= records@.len(),
                reg.wf(),
                forall|n: Seq<char>| #[trigger]
                    reg@.dom().contains(n) == exists|k: int|
                        0 <= k < i && (#[trigger] records@[k]).name@ == n,
            decreases records@.len() - i,
        {
            let ghost pre = reg;
            if !reg.contains(records[i].name.as_str()) {
                let rec = records[i].clone_record();
                let ghost rv = rec@;
                reg.records.push(rec);
                proof {
                    assert forall|p: int, q: int|
                        0 <= p < q < reg.records@.len() implies (
                    #[trigger] reg.records@[p]).name@ != (#[trigger] reg.records@[q]).name@ by {
                        if q == reg.records@.len() - 1 {
                            pre.lemma_index_view(p);
                        }
                    }
                    assert forall|n: Seq<char>| #[trigger]
                        reg@.dom().contains(n) == (pre@.dom().contains(n) || rv.name == n) by {
                        if pre@.dom().contains(n) || rv.name == n {
                            if rv.name == n {
                                assert(reg.records@[reg.records@.len() - 1].name@ == n);
                            } else {
                                let k = choose|k: int|
                                    0 <= k < pre.records@.len() && pre.records@[k].name@ == n;
                                assert(reg.records@[k].name@ == n);
                            }
                        }
                    }
                }
            }
            i = i + 1;
        }
        reg
    }

    /// Whether a name is registered.
    pub fn contains(&self, name: &str) -> (r: bool)
        ensures
            r == self@.dom().contains(name@),
    {
        let mut i: usize = 0;
        while i < self.records.len()
            invariant
                i <= self.records@.len(),
                forall|k: int| 0 <= k < i ==> (#[trigger] self.records@[k]).name@ != name@,
            decreases self.records@.len() - i,
        {
            if str_eq(self.records[i].name.as_str(), name) {
                return true;
            }
            i = i + 1;
        }
        return false;
    }

    /// The record registered under a name.
    pub fn get(&self, name: &str) -> (r: Option<&RegistryRecord>)
        requires
            self.wf(),
        ensures
            match r {
                Some(rec) => self@.dom().contains(name@) && rec@ == self@[name@],
                None => !self@.dom().contains(name@),
            },
    {
        let mut i: usize = 0;
        while i < self.records.len()
            invariant
                self.wf(),
                i <= self.records@.len(),
                forall|k: int| 0 <= k < i ==> (#[trigger] self.records@[k]).name@ != name@,
            decreases self.records@.len() - i,
        {
            if str_eq(self.records[i].name.as_str(), name) {
                proof {
                    self.lemma_index_view(i as int);
                }
                return Some(&self.records[i]);
            }
            i = i + 1;
        }
        return None;
    }

    /// Register a record under its name, replacing any record already there.
    /// The registry map gains (or overwrites) exactly that binding.
    pub fn register(&mut self, rec: RegistryRecord)
        requires
            old(self).wf(),
        ensures
            final(self).wf(),
            final(self)@ == old(self)@.insert(rec@.name, rec@),
    {
        let ghost pre = *self;
        let mut i: usize = 0;
        while i < self.records.len()
            invariant
                *self == pre,
                pre == *old(self),
                pre.wf(),
                i <= self.records@.len(),
                forall|k: int| 0 <= k < i ==> (#[trigger] self.records@[k]).name@ != rec.name@,
            decreases self.records@.len() - i,
        {
            if str_eq(self.records[i].name.as_str(), rec.name.as_str()) {
                proof {
                    pre.lemma_index_view(i as int);
                }
                let ghost rv = rec@;
                self.records.remove(i);
                self.records.insert(i, rec);
                proof {
                    assert(self.records@ =~= pre.records@.update(i as int, rec));
                    assert forall|p: int, q: int|
                        0 <= p < q < self.records@.len() implies (
                    #[trigger] self.records@[p]).name@ != (#[trigger] self.records@[q]).name@ by {
                        assert(pre.records@[p].name@ != pre.records@[q].name@);
                    }
                    assert(self@ =~= pre@.insert(rv.name, rv)) by {
                        assert forall|n: Seq<char>| self@.dom().contains(n) == pre@.dom().insert(
                            rv.name,
                        ).contains(n) by {
                            assert(self.records@[i as int].name@ == rv.name);
                            if self@.dom().contains(n) {
                                let k = choose|k: int|
                                    0 <= k < self.records@.len() && self.records@[k].name@ == n;
                                if k != i {
                                    assert(pre.records@[k].name@ == n);
                                }
                            }
                            if pre@.dom().contains(n) {
                                let k = choose|k: int|
                                    0 <= k < pre.records@.len() && pre.records@[k].name@ == n;
                                if k != i {
                                    assert(self.records@[k].name@ == n);
                                }
                            }
                        }
                        assert forall|n: Seq<char>| #[trigger]
                            self@.dom().contains(n) implies self@[n] == pre@.insert(rv.name, rv)[n] by {
                            let k = choose|k: int|
                                0 <= k < self.records@.len() && self.records@[k].name@ == n;
                            self.lemma_index_view(k);
                            if n != rv.name {
                                assert(k != i);
                                assert(pre.records@[k].name@ == n);
                                pre.lemma_index_view(k);
                            }
                        }
                    }
                }
                return ;
            }
            i = i + 1;
        }
        let ghost rv = rec@;
        self.records.push(rec);
        proof {
            assert forall|p: int, q: int| 0 <= p < q < self.records@.len() implies (
            #[trigger] self.records@[p]).name@ != (#[trigger] self.records@[q]).name@ by {
                if q == self.records@.len() - 1 {
                    assert(pre.records@[p].name@ != rv.name);
                }
            }
            assert(self@ =~= pre@.insert(rv.name, rv)) by {
                assert forall|n: Seq<char>| self@.dom().contains(n) == pre@.dom().insert(
                    rv.name,
                ).contains(n) by {
                    assert(self.records@[self.records@.len() - 1].name@ == rv.name);
                    if self@.dom().contains(n) {
                        let k = choose|k: int|
                            0 <= k < self.records@.len() && self.records@[k].name@ == n;
                        if k < self.records@.len() - 1 {
                            assert(pre.records@[k].name@ == n);
                        }
                    }
                    if pre@.dom().contains(n) {
                        let k = choose|k: int|
                            0 <= k < pre.records@.len() && pre.records@[k].name@ == n;
                        assert(self.records@[k].name@ == n);
                    }
                }
                assert forall|n: Seq<char>| #[trigger] self@.dom().contains(n) implies self@[n]
                    == pre@.insert(rv.name, rv)[n] by {
                    let k = choose|k: int|
                        0 <= k < self.records@.len() && self.records@[k].name@ == n;
                    self.lemma_index_view(k);
                    if n != rv.name {
                        assert(k < self.records@.len() - 1);
                        assert(pre.records@[k].name@ == n);
                        pre.lemma_index_view(k);
                    }
                }
            }
        }
    }

    /// Remove the record registered under a name, if any. The registry map
    /// loses exactly that binding.
    pub fn unregister(&mut self, name: &str)
        requires
            old(self).wf(),
        ensures
            final(self).wf(),
            final(self)@ == old(self)@.remove(name@),
    {
        let ghost pre = *self;
        let mut i: usize = 0;
        while i < self.records.len()
            invariant
                *self == pre,
                pre == *old(self),
                pre.wf(),
                i <= self.records@.len(),
                forall|k: int| 0 <= k < i ==> (#[trigger] self.records@[k]).name@ != name@,
            decreases self.records@.len() - i,
        {
            if str_eq(self.records[i].name.as_str(), name) {
                self.records.remove(i);
                proof {
                    assert forall|p: int, q: int|
                        0 <= p < q < self.records@.len() implies (
                    #[trigger] self.records@[p]).name@ != (#[trigger] self.records@[q]).name@ by {
                        let pp = if p < i as int {
                            p
                        } else {
                            p + 1
                        };
                        let qq = if q < i as int {
                            q
                        } else {
                            q + 1
                        };
                        assert(pre.records@[pp].name@ != pre.records@[qq].name@);
                    }
                    assert(self@ =~= pre@.remove(name@)) by {
                        assert forall|n: Seq<char>| self@.dom().contains(n) == pre@.dom().remove(
                            name@,
                        ).contains(n) by {
                            if self@.dom().contains(n) {
                                let k = choose|k: int|
                                    0 <= k < self.records@.len() && self.records@[k].name@ == n;
                                let kk = if k < i as int {
                                    k
                                } else {
                                    k + 1
                                };
                                assert(pre.records@[kk].name@ == n);
                                if n == name@ {
                                    if kk < i as int {
                                        assert(pre.records@[kk].name@ != pre.records@[i as int].name@);
                                    } else if kk > i as int {
                                        assert(pre.records@[i as int].name@ != pre.records@[kk].name@);
                                    }
                                }
                            }
                            if pre@.dom().contains(n) && n != name@ {
                                let k = choose|k: int|
                                    0 <= k < pre.records@.len() && pre.records@[k].name@ == n;
                                let kk = if k < i as int {
                                    k
                                } else {
                                    k - 1
                                };
                                assert(k != i as int);
                                assert(self.records@[kk].name@ == n);
                            }
                        }
                        assert forall|n: Seq<char>| #[trigger] self@.dom().contains(n) implies self@[n]
                            == pre@.remove(name@)[n] by {
                            let k = choose|k: int|
                                0 <= k < self.records@.len() && self.records@[k].name@ == n;
                            self.lemma_index_view(k);
                            let kk = if k < i as int {
                                k
                            } else {
                                k + 1
                            };
                            assert(pre.records@[kk].name@ == n);
                            pre.lemma_index_view(kk);
                        }
                    }
                }
                return ;
            }
            i = i + 1;
        }
        proof {
            assert(self@ =~= pre@.remove(name@)) by {
                if pre@.dom().contains(name@) {
                    let k = choose|k: int|
                        0 <= k < pre.records@.len() && pre.records@[k].name@ == name@;
                    assert(false);
                }
            }
        }
    }

    /// Record that a system was just used. A name not registered is left as
    /// it is.
    pub fn mark_last_used(&mut self, name: &str, now: u64)
        requires
            old(self).wf(),
        ensures
            final(self).wf(),
            old(self)@.dom().contains(name@) ==> final(self)@ == old(self)@.insert(
                name@,
                RecordView { last_used: Some(now), ..old(self)@[name@] },
            ),
            !old(self)@.dom().contains(name@) ==> final(self)@ == old(self)@,
    {
        let ghost pre = *self;
        let mut i: usize = 0;
        while i < self.records.len()
            invariant
                *self == pre,
                pre == *old(self),
                pre.wf(),
                i <= self.records@.len(),
                forall|k: int| 0 <= k < i ==> (#[trigger] self.records@[k]).name@ != name@,
            decreases self.records@.len() - i,
        {
            if str_eq(self.records[i].name.as_str(), name) {
                proof {
                    pre.lemma_index_view(i as int);
                }
                let mut rec = self.records[i].clone_record();
                rec.last_used = Some(now);
                let ghost rv = rec@;
                self.register(rec);
                proof {
                    assert(rv == RecordView { last_used: Some(now), ..pre@[name@] });
                }
                return ;
            }
            i = i + 1;
        }
        proof {
            if pre@.dom().contains(name@) {
                let k = choose|k: int| 0 <= k < pre.records@.len() && pre.records@[k].name@ == name@;
                assert(false);
            }
        }
    }

    /// The stored records, for listing and persistence.
    pub fn records(&self) -> (r: &Vec<RegistryRecord>)
        requires
            self.wf(),
        ensures
            forall|i: int|
                0 <= i < r@.len() ==> self@.dom().contains((#[trigger] r@[i]).name@) && self@[r@[i].name@]
                    == r@[i]@,
            forall|n: Seq<char>| #[trigger]
                self@.dom().contains(n) ==> exists|i: int| 0 <= i < r@.len() && (#[trigger] r@[i]).name@ == n,
    {
        proof {
            assert forall|i: int| 0 <= i < self.records@.len() implies self@.dom().contains(
                (#[trigger] self.records@[i]).name@,
            ) && self@[self.records@[i].name@] == self.records@[i]@ by {
                self.lemma_index_view(i);
            }
        }
        &self.records
    }
}

impl RegistryRecord {
    /// A copy with the same view.
    pub fn clone_record(&self) -> (r: RegistryRecord)
        ensures
            r@ == self@,
    {
        RegistryRecord {
            name: self.name.clone(),
            path: self.path.clone(),
            install_time: self.install_time,
            last_used: self.last_used,
            bootable: self.bootable,
            size_mb: self.size_mb,
        }
    }
}

} // verus!
