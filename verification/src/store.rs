//! An in-memory two-generation key-value store: a mapping from contract
//! address to a mapping from key to value. Supplies the base ("pre") state,
//! derives the mutated ("post") state by applying a solution's declared
//! mutations (last write wins, an empty value deletes), and answers
//! key-range reads with big-endian carry on the key tuple.

use vstd::prelude::*;

use crate::model::{Addr, Key, MutationV, SolutionModel, Value, Word};

verus! {

/// One key/value pair held by a contract's state.
#[derive(Debug, Clone, PartialEq, Eq)]
pub struct StoreKv {
    /// The key.
    pub key: Key,
    /// The value stored at the key.
    pub value: Value,
}

/// The state held by a single contract address.
#[derive(Debug, Clone, PartialEq, Eq)]
pub struct StoreContract {
    /// The contract address.
    pub addr: Addr,
    /// The key/value pairs, with pairwise-distinct keys.
    pub entries: Vec<StoreKv>,
}

/// A store: state keyed by contract address, then by key.
#[derive(Debug, Clone, PartialEq, Eq)]
pub struct Store {
    /// The per-contract states, with pairwise-distinct addresses.
    pub contracts: Vec<StoreContract>,
}

/// The view of one contract's entries as a mathematical map.
pub open spec fn kvs_map(s: Seq<StoreKv>) -> Map<Seq<Word>, Seq<Word>>
    decreases s.len(),
{
    if s.len() == 0 {
        Map::empty()
    } else {
        kvs_map(s.drop_last()).insert(s.last().key@, s.last().value@)
    }
}

/// The view of a whole store as a map of maps.
pub open spec fn store_map(s: Seq<StoreContract>) -> Map<Seq<u8>, Map<Seq<Word>, Seq<Word>>>
    decreases s.len(),
{
    if s.len() == 0 {
        Map::empty()
    } else {
        store_map(s.drop_last()).insert(s.last().addr@, kvs_map(s.last().entries@))
    }
}

/// Keys are pairwise distinct.
pub open spec fn kvs_wf(s: Seq<StoreKv>) -> bool {
    forall|i: int, j: int| 0 <= i < j < s.len() ==> s[i].key@ != s[j].key@
}

/// Addresses are pairwise distinct and every contract's entries are well formed.
pub open spec fn contracts_wf(s: Seq<StoreContract>) -> bool {
    &&& forall|i: int, j: int| 0 <= i < j < s.len() ==> s[i].addr@ != s[j].addr@
    &&& forall|i: int| 0 <= i < s.len() ==> kvs_wf(#[trigger] s[i].entries@)
}

impl View for Store {
    type V = Map<Seq<u8>, Map<Seq<Word>, Seq<Word>>>;

    open spec fn view(&self) -> Map<Seq<u8>, Map<Seq<Word>, Seq<Word>>> {
        store_map(self.contracts@)
    }
}

impl Store {
    /// The store's internal invariant.
    pub open spec fn wf(&self) -> bool {
        contracts_wf(self.contracts@)
    }

    /// An empty store.
    pub fn new() -> (r: Store)
        ensures
            r.wf(),
            r@ == Map::<Seq<u8>, Map<Seq<Word>, Seq<Word>>>::empty(),
    {
        Store { contracts: Vec::new() }
    }
}

/// How the map view of a contract's entries relates to the entry sequence.
pub proof fn lemma_kvs_map(s: Seq<StoreKv>, k: Seq<Word>)
    requires
        kvs_wf(s),
    ensures
        kvs_map(s).contains_key(k) <==> (exists|i: int| 0 <= i < s.len() && s[i].key@ == k),
        forall|i: int|
            0 <= i < s.len() && s[i].key@ == k ==> kvs_map(s).contains_key(k) && kvs_map(s)[k]
                == s[i].value@,
    decreases s.len(),
{
    if s.len() > 0 {
        let t = s.drop_last();
        lemma_kvs_map(t, k);
        if s.last().key@ == k {
            assert(forall|i: int| 0 <= i < s.len() - 1 ==> s[i].key@ != k);
        } else {
            assert(forall|i: int| 0 <= i < s.len() && s[i].key@ == k ==> 0 <= i < t.len()
                && t[i].key@ == k);
        }
    }
}

/// How the map view of a store relates to the contract sequence.
pub proof fn lemma_store_map(s: Seq<StoreContract>, a: Seq<u8>)
    requires
        contracts_wf(s),
    ensures
        store_map(s).contains_key(a) <==> (exists|i: int| 0 <= i < s.len() && s[i].addr@ == a),
        forall|i: int|
            0 <= i < s.len() && s[i].addr@ == a ==> store_map(s).contains_key(a) && store_map(s)[a]
                == kvs_map(s[i].entries@),
    decreases s.len(),
{
    if s.len() > 0 {
        let t = s.drop_last();
        lemma_store_map(t, a);
        if s.last().addr@ == a {
            assert(forall|i: int| 0 <= i < s.len() - 1 ==> s[i].addr@ != a);
        } else {
            assert(forall|i: int| 0 <= i < s.len() && s[i].addr@ == a ==> 0 <= i < t.len()
                && t[i].addr@ == a);
        }
    }
}

/// Compare two 32-byte addresses.
pub fn addr_eq(a: &Addr, b: &Addr) -> (r: bool)
    ensures
        r == (a@ == b@),
{
    let mut i: usize = 0;
    while i < 32
        invariant
            0 <= i <= 32,
            forall|j: int| 0 <= j < i ==> a@[j] == b@[j],
        decreases 32 - i,
    {
        if a[i] != b[i] {
            return false;
        }
        i += 1;
    }
    assert(a@ =~= b@);
    true
}

/// Compare two word sequences.
pub fn words_eq(a: &[Word], b: &[Word]) -> (r: bool)
    ensures
        r == (a@ == b@),
{
    if a.len() != b.len() {
        return false;
    }
    let mut i: usize = 0;
    while i < a.len()
        invariant
            0 <= i <= a@.len(),
            a@.len() == b@.len(),
            forall|j: int| 0 <= j < i ==> a@[j] == b@[j],
        decreases a@.len() - i,
    {
        if a[i] != b[i] {
            return false;
        }
        i += 1;
    }
    assert(a@ =~= b@);
    true
}

/// Clone a word vector; the clone holds the same words.
pub fn clone_words(v: &Vec<Word>) -> (r: Vec<Word>)
    ensures
        r@ == v@,
{
    let r = v.clone();
    proof {
        assert forall|i: int| 0 <= i < v@.len() implies r@[i] == v@[i] by {
            assert(cloned::<Word>(v@[i], r@[i]));
        }
        assert(r@ =~= v@);
    }
    r
}

impl Store {
    /// The index of the contract with the given address, if present.
    fn find_contract(&self, addr: &Addr) -> (r: Option<usize>)
        ensures
            match r {
                Some(i) => 0 <= i < self.contracts@.len() && self.contracts@[i as int].addr@
                    == addr@,
                None => forall|i: int|
                    0 <= i < self.contracts@.len() ==> self.contracts@[i].addr@ != addr@,
            },
    {
        let mut i: usize = 0;
        while i < self.contracts.len()
            invariant
                0 <= i <= self.contracts@.len(),
                forall|j: int| 0 <= j < i ==> self.contracts@[j].addr@ != addr@,
            decreases self.contracts@.len() - i,
        {
            if addr_eq(&self.contracts[i].addr, addr) {
                return Some(i);
            }
            i += 1;
        }
        None
    }

    /// The value stored at `(addr, key)`, if any.
    #[verifier::loop_isolation(false)]
    pub fn get(&self, addr: &Addr, key: &Key) -> (r: Option<&Value>)
        requires
            self.wf(),
        ensures
            match r {
                Some(v) => self@.contains_key(addr@) && self@[addr@].contains_key(key@) && v@
                    == self@[addr@][key@],
                None => !self@.contains_key(addr@) || !self@[addr@].contains_key(key@),
            },
    {
        proof {
            lemma_store_map(self.contracts@, addr@);
        }
        let ci = match self.find_contract(addr) {
            Some(ci) => ci,
            None => {
                return None;
            },
        };
        let entries = &self.contracts[ci].entries;
        proof {
            lemma_kvs_map(entries@, key@);
        }
        let mut i: usize = 0;
        while i < entries.len()
            invariant
                0 <= i <= entries@.len(),
                forall|j: int| 0 <= j < i ==> entries@[j].key@ != key@,
            decreases entries@.len() - i,
        {
            if words_eq(entries[i].key.as_slice(), key.as_slice()) {
                return Some(&entries[i].value);
            }
            i += 1;
        }
        None
    }
}



/// Removing entry `j` removes exactly its key from the map view.
proof fn lemma_kvs_map_remove(s: Seq<StoreKv>, j: int)
    requires
        kvs_wf(s),
        0 <= j < s.len(),
    ensures
        kvs_map(s.remove(j)) == kvs_map(s).remove(s[j].key@),
    decreases s.len(),
{
    let k = s[j].key@;
    if j == s.len() - 1 {
        assert(s.remove(j) =~= s.drop_last());
        lemma_kvs_map(s.drop_last(), k);
        assert(kvs_map(s.remove(j)) =~= kvs_map(s).remove(k));
    } else {
        assert(s.remove(j).drop_last() =~= s.drop_last().remove(j));
        assert(s.remove(j).last() == s.last());
        lemma_kvs_map_remove(s.drop_last(), j);
        assert(kvs_map(s.remove(j)) =~= kvs_map(s).remove(k));
    }
}

/// Replacing the contract at `i` (keeping its address) updates the store view
/// at exactly that address.
proof fn lemma_store_map_update(s: Seq<StoreContract>, i: int, c: StoreContract)
    requires
        contracts_wf(s),
        0 <= i < s.len(),
        c.addr@ == s[i].addr@,
    ensures
        store_map(s.update(i, c)) == store_map(s).insert(c.addr@, kvs_map(c.entries@)),
    decreases s.len(),
{
    if i == s.len() - 1 {
        assert(s.update(i, c).drop_last() =~= s.drop_last());
        assert(s.update(i, c).last() == c);
        assert(store_map(s.update(i, c)) =~= store_map(s).insert(c.addr@, kvs_map(c.entries@)));
    } else {
        assert(s.update(i, c).drop_last() =~= s.drop_last().update(i, c));
        assert(s.update(i, c).last() == s.last());
        lemma_store_map_update(s.drop_last(), i, c);
        assert(s.last().addr@ != c.addr@);
        assert(store_map(s.update(i, c)) =~= store_map(s).insert(c.addr@, kvs_map(c.entries@)));
    }
}

impl Store {
    /// The index of the entry with the given key within one contract.
    fn find_key(entries: &Vec<StoreKv>, key: &Key) -> (r: Option<usize>)
        ensures
            match r {
                Some(j) => 0 <= j < entries@.len() && entries@[j as int].key@ == key@,
                None => forall|j: int| 0 <= j < entries@.len() ==> entries@[j].key@ != key@,
            },
    {
        let mut j: usize = 0;
        while j < entries.len()
            invariant
                0 <= j <= entries@.len(),
                forall|l: int| 0 <= l < j ==> entries@[l].key@ != key@,
            decreases entries@.len() - j,
        {
            if words_eq(entries[j].key.as_slice(), key.as_slice()) {
                return Some(j);
            }
            j += 1;
        }
        None
    }

    /// Write `value` at `(addr, key)`: last write wins, an empty value deletes
    /// the key, and the contract's state is created if absent.
    pub fn set(&mut self, addr: &Addr, key: &Key, value: Value)
        requires
            old(self).wf(),
        ensures
            final(self).wf(),
            final(self)@ == store_set_spec(old(self)@, addr@, key@, value@),
    {
        proof {
            lemma_store_map(self.contracts@, addr@);
        }
        let ci = match self.find_contract(addr) {
            Some(ci) => ci,
            None => {
                let ghost s0 = self.contracts@;
                let ghost vv = value@;
                let mut entries: Vec<StoreKv> = Vec::new();
                if value.len() > 0 {
                    entries.push(StoreKv { key: clone_words(key), value });
                }
                let c = StoreContract { addr: *addr, entries };
                self.contracts.push(c);
                proof {
                    assert(self.contracts@.drop_last() =~= s0);
                    assert(self.contracts@.last() == c);
                    let empty_map = Map::<Seq<Word>, Seq<Word>>::empty();
                    if vv.len() == 0 {
                        assert(c.entries@ =~= Seq::<StoreKv>::empty());
                        assert(kvs_map(c.entries@) == empty_map);
                        assert(kvs_map(c.entries@) =~= empty_map.remove(key@));
                    } else {
                        assert(c.entries@.drop_last() =~= Seq::<StoreKv>::empty());
                        assert(kvs_map(c.entries@.drop_last()) == empty_map);
                        assert(c.entries@.last().key@ == key@);
                        assert(c.entries@.last().value@ == vv);
                        assert(kvs_map(c.entries@) == empty_map.insert(key@, vv));
                    }
                    assert(self@ =~= store_set_spec(store_map(s0), addr@, key@, vv));
                }
                return ;
            },
        };
        let ghost s0 = self.contracts@;
        let ghost inner0 = kvs_map(s0[ci as int].entries@);
        let mut c = self.contracts.remove(ci);
        let ghost e0 = c.entries@;
        let j_found = Self::find_key(&c.entries, key);
        proof {
            lemma_kvs_map(e0, key@);
        }
        if value.len() == 0 {
            if let Some(j) = j_found {
                c.entries.remove(j);
                proof {
                    lemma_kvs_map_remove(e0, j as int);
                }
            } else {
                proof {
                    assert(kvs_map(e0) =~= kvs_map(e0).remove(key@));
                }
            }
            proof {
                assert(kvs_wf(c.entries@)) by {
                    if let Some(j) = j_found {
                        assert(forall|x: int, y: int|
                            0 <= x < y < c.entries@.len() ==> c.entries@[x].key@
                                != c.entries@[y].key@);
                    }
                }
                assert(kvs_map(c.entries@) == inner0.remove(key@));
            }
        } else {
            if let Some(j) = j_found {
                c.entries.remove(j);
                proof {
                    lemma_kvs_map_remove(e0, j as int);
                }
            }
            let ghost e1 = c.entries@;
            proof {
                assert(kvs_wf(e1)) by {
                    if let Some(j) = j_found {
                        assert(forall|x: int, y: int|
                            0 <= x < y < e1.len() ==> e1[x].key@ != e1[y].key@);
                    }
                }
                assert(forall|x: int| 0 <= x < e1.len() ==> e1[x].key@ != key@) by {
                    if let Some(j) = j_found {
                        assert(forall|x: int|
                            0 <= x < e1.len() ==> (e1[x] == e0[x] || e1[x] == e0[x + 1]));
                    }
                }
            }
            c.entries.push(StoreKv { key: clone_words(key), value });
            proof {
                assert(c.entries@.drop_last() =~= e1);
                assert(kvs_wf(c.entries@));
                assert(kvs_map(c.entries@) =~= inner0.insert(key@, c.entries@.last().value@));
            }
        }
        let ghost cnew = c;
        self.contracts.insert(ci, c);
        proof {
            assert(self.contracts@ =~= s0.update(ci as int, cnew));
            lemma_store_map_update(s0, ci as int, cnew);
            assert(self@ == store_set_spec(store_map(s0), addr@, key@, value@));
        }
    }
}

/// The mutations declared by one solution entry, tagged with its contract.
pub open spec fn data_muts(d: crate::model::SolutionDataV) -> Seq<AddrMut> {
    d.state_mutations.map_values(
        |mv: MutationV| AddrMut { addr: d.predicate_to_solve.contract, key: mv.key, value: mv.value },
    )
}

/// All mutations declared by a solution, in entry order then mutation order.
pub open spec fn sol_muts(data: Seq<crate::model::SolutionDataV>) -> Seq<AddrMut>
    decreases data.len(),
{
    if data.len() == 0 {
        Seq::empty()
    } else {
        data_muts(data[0]) + sol_muts(data.drop_first())
    }
}

/// Taking one more entry appends exactly that entry's mutations.
proof fn lemma_sol_muts_take(data: Seq<crate::model::SolutionDataV>, i: int)
    requires
        0 <= i < data.len(),
    ensures
        sol_muts(data.take(i + 1)) == sol_muts(data.take(i)) + data_muts(data[i]),
    decreases i,
{
    if i == 0 {
        assert(data.take(1)[0] == data[0]);
        assert(data.take(1).drop_first() =~= Seq::<crate::model::SolutionDataV>::empty());
        assert(data.take(0) =~= Seq::<crate::model::SolutionDataV>::empty());
        assert(sol_muts(Seq::<crate::model::SolutionDataV>::empty()) =~= Seq::<AddrMut>::empty());
        assert(sol_muts(data.take(1)) == data_muts(data[0]) + sol_muts(
            Seq::<crate::model::SolutionDataV>::empty(),
        ));
        assert(sol_muts(data.take(1)) =~= sol_muts(data.take(0)) + data_muts(data[0]));
    } else {
        let dd = data.drop_first();
        assert(data.take(i + 1)[0] == data[0]);
        assert(data.take(i + 1).drop_first() =~= dd.take(i));
        assert(data.take(i)[0] == data[0]);
        assert(data.take(i).drop_first() =~= dd.take(i - 1));
        lemma_sol_muts_take(dd, i - 1);
        assert(dd[i - 1] == data[i]);
        assert(sol_muts(data.take(i + 1)) == data_muts(data[0]) + (sol_muts(dd.take(i - 1))
            + data_muts(data[i])));
        assert(data_muts(data[0]) + (sol_muts(dd.take(i - 1)) + data_muts(data[i])) =~= (data_muts(
            data[0],
        ) + sol_muts(dd.take(i - 1))) + data_muts(data[i]));
    }
}

impl Store {
    /// Apply every state mutation declared by the solution, in entry order
    /// then mutation order; the last write to a key wins and an empty value
    /// deletes the key.
    pub fn apply_mutations(&mut self, solution: &SolutionModel)
        requires
            old(self).wf(),
        ensures
            final(self).wf(),
            final(self)@ == apply_muts(old(self)@, sol_muts(solution@.data)),
    {
        let ghost m0 = self@;
        let ghost datav = solution@.data;
        let mut i: usize = 0;
        while i < solution.data.len()
            invariant
                self.wf(),
                0 <= i <= datav.len(),
                datav == solution@.data,
                solution@.data.len() == solution.data@.len(),
                self@ == apply_muts(m0, sol_muts(datav.take(i as int))),
            decreases datav.len() - i,
        {
            let d = &solution.data[i];
            let ghost pre = sol_muts(datav.take(i as int));
            let ghost dm = data_muts(datav[i as int]);
            proof {
                assert(dm.take(0) =~= Seq::<AddrMut>::empty());
                assert(pre + dm.take(0) =~= pre);
            }
            let mut j: usize = 0;
            while j < d.state_mutations.len()
                invariant
                    self.wf(),
                    0 <= j <= d.state_mutations@.len(),
                    dm == data_muts(datav[i as int]),
                    0 <= i < datav.len(),
                    datav == solution@.data,
                    datav[i as int] == d.deep_view(),
                    dm.len() == d.state_mutations@.len(),
                    self@ == apply_muts(m0, pre + dm.take(j as int)),
                decreases d.state_mutations@.len() - j,
            {
                let mu = &d.state_mutations[j];
                let ghost before = self@;
                self.set(&d.predicate_to_solve.contract, &mu.key, clone_words(&mu.value));
                proof {
                    assert(dm[j as int] == AddrMut {
                        addr: d.predicate_to_solve.contract@,
                        key: mu.key@,
                        value: mu.value@,
                    });
                    assert(self@ == store_set_spec(before, dm[j as int].addr, dm[j as int].key,
                        dm[j as int].value));
                    assert(pre + dm.take(j + 1) =~= (pre + dm.take(j as int)).push(dm[j as int]));
                    lemma_apply_muts_push(m0, pre + dm.take(j as int), dm[j as int]);
                }
                j += 1;
            }
            proof {
                assert(dm.take(dm.len() as int) =~= dm);
                lemma_sol_muts_take(datav, i as int);
            }
            i += 1;
        }
        proof {
            assert(datav.take(datav.len() as int) =~= datav);
        }
    }
}

/// The key that follows `k`: increment the last word; words already at the
/// maximum wrap to the minimum and carry left. `None` when every word is at
/// the maximum (the key space is exhausted).
pub open spec fn next_key_spec(k: Seq<Word>) -> Option<Seq<Word>>
    decreases k.len(),
{
    if k.len() == 0 {
        None
    } else if k.last() == i64::MAX {
        match next_key_spec(k.drop_last()) {
            None => None,
            Some(p) => Some(p.push(i64::MIN)),
        }
    } else {
        Some(k.update(k.len() - 1, (k.last() + 1) as i64))
    }
}

/// Compute the key that follows `key`, carrying from the last word.
#[verifier::loop_isolation(false)]
pub fn next_key(key: &Key) -> (r: Option<Key>)
    ensures
        match r {
            Some(k2) => next_key_spec(key@) == Some(k2@),
            None => next_key_spec(key@) is None,
        },
{
    let mut k = clone_words(key);
    let mut i: usize = k.len();
    proof {
        assert(key@.take(key@.len() as int) =~= key@);
        if let Some(p) = next_key_spec(key@) {
            assert(p + Seq::new(0nat, |j: int| i64::MIN) =~= p);
        }
    }
    while i > 0
        invariant
            0 <= i <= key@.len(),
            k@.len() == key@.len(),
            forall|j: int| 0 <= j < i ==> k@[j] == key@[j],
            forall|j: int| i <= j < k@.len() ==> k@[j] == i64::MIN && key@[j] == i64::MAX,
            match next_key_spec(key@.take(i as int)) {
                None => next_key_spec(key@) is None,
                Some(p) => next_key_spec(key@) == Some(
                    p + Seq::new((key@.len() - i) as nat, |j: int| i64::MIN),
                ),
            },
        decreases i,
    {
        proof {
            assert(key@.take(i as int).last() == key@[i - 1]);
            assert(key@.take(i as int).drop_last() =~= key@.take(i - 1));
        }
        if k[i - 1] == i64::MAX {
            k[i - 1] = i64::MIN;
            proof {
                if let Some(p) = next_key_spec(key@.take(i - 1)) {
                    assert(p.push(i64::MIN) + Seq::new((key@.len() - i) as nat, |j: int| i64::MIN)
                        =~= p + Seq::new((key@.len() - (i - 1)) as nat, |j: int| i64::MIN));
                }
            }
            i -= 1;
        } else {
            let w = k[i - 1];
            k[i - 1] = w + 1;
            proof {
                let p = key@.take(i as int).update(i - 1, (key@[i - 1] + 1) as i64);
                assert(k@ =~= p + Seq::new((key@.len() - i) as nat, |j: int| i64::MIN));
            }
            return Some(k);
        }
    }
    proof {
        assert(key@.take(0) =~= Seq::<Word>::empty());
    }
    None
}

/// The values at `count` consecutive keys starting from `k`: missing keys
/// yield empty values; `None` when the key tuple overflows while further
/// values remain to be read (no increment is needed after the last one).
pub open spec fn key_range_spec(m: Map<Seq<Word>, Seq<Word>>, k: Seq<Word>, n: nat) -> Option<
    Seq<Seq<Word>>,
>
    decreases n,
{
    if n == 0 {
        Some(Seq::empty())
    } else {
        let v = if m.contains_key(k) {
            m[k]
        } else {
            Seq::empty()
        };
        if n == 1 {
            Some(seq![v])
        } else {
            match next_key_spec(k) {
                None => None,
                Some(k2) => match key_range_spec(m, k2, (n - 1) as nat) {
                    None => None,
                    Some(rest) => Some(seq![v] + rest),
                },
            }
        }
    }
}

/// Reading a key range failed because the key tuple overflowed.
#[derive(Debug, Clone, PartialEq, Eq)]
pub struct KeySpaceExhausted;

impl Store {
    /// Read `num_words` consecutive values starting at `key` under `addr`.
    /// Missing keys yield empty values; an unknown address yields an empty
    /// result; overflowing the key space while further values remain is the
    /// one error (the key after the last value read is never needed).
    #[verifier::loop_isolation(false)]
    pub fn key_range(&self, addr: &Addr, key: &Key, num_words: usize) -> (r: Result<
        Vec<Value>,
        KeySpaceExhausted,
    >)
        requires
            self.wf(),
        ensures
            !self@.contains_key(addr@) ==> (r matches Ok(vs) && vs@.len() == 0),
            self@.contains_key(addr@) ==> match key_range_spec(self@[addr@], key@, num_words as nat) {
                Some(vs) => r matches Ok(out) && out.deep_view() == vs,
                None => r is Err,
            },
    {
        proof {
            lemma_store_map(self.contracts@, addr@);
        }
        if self.find_contract(addr).is_none() {
            let out: Vec<Value> = Vec::new();
            return Ok(out);
        }
        let ghost m = self@[addr@];
        let mut out: Vec<Value> = Vec::new();
        let mut cur: Key = clone_words(key);
        let mut i: usize = 0;
        while i < num_words
            invariant
                self.wf(),
                self@.contains_key(addr@),
                m == self@[addr@],
                0 <= i <= num_words,
                out.deep_view().len() == i,
                match key_range_spec(m, cur@, (num_words - i) as nat) {
                    Some(rest) => key_range_spec(m, key@, num_words as nat) == Some(
                        out.deep_view() + rest,
                    ),
                    None => key_range_spec(m, key@, num_words as nat) is None,
                },
            decreases num_words - i,
        {
            let v = match self.get(addr, &cur) {
                Some(v) => clone_words(v),
                None => Vec::new(),
            };
            proof {
                assert(v.deep_view() =~= (if m.contains_key(cur@) {
                    m[cur@]
                } else {
                    Seq::<Word>::empty()
                }));
            }
            out.push(v);
            if i + 1 < num_words {
                match next_key(&cur) {
                    Some(k2) => {
                        proof {
                            if let Some(rest) = key_range_spec(m, k2@, (num_words - i - 1) as nat) {
                                assert(out.deep_view().drop_last() + (seq![
                                    (if m.contains_key(cur@) {
                                        m[cur@]
                                    } else {
                                        Seq::<Word>::empty()
                                    }),
                                ] + rest) =~= out.deep_view() + rest);
                            }
                        }
                        cur = k2;
                    },
                    None => {
                        return Err(KeySpaceExhausted);
                    },
                }
                i += 1;
            } else {
                proof {
                    assert(out.deep_view().drop_last().push(v.deep_view()) =~= out.deep_view());
                    assert(key_range_spec(m, key@, num_words as nat) == Some(out.deep_view()));
                }
                return Ok(out);
            }
        }
        proof {
            assert(key_range_spec(m, cur@, 0) == Some(Seq::<Seq<Word>>::empty()));
            assert(out.deep_view() + Seq::<Seq<Word>>::empty() =~= out.deep_view());
        }
        Ok(out)
    }
}

/// A mutation tagged with the contract address it applies to.
pub struct AddrMut {
    /// The contract address.
    pub addr: Seq<u8>,
    /// The key being written.
    pub key: Seq<Word>,
    /// The new value; empty deletes.
    pub value: Seq<Word>,
}

/// One mutation applied to a store view: last write wins, empty value deletes,
/// and the address's inner map is created if absent.
pub open spec fn store_set_spec(
    m: Map<Seq<u8>, Map<Seq<Word>, Seq<Word>>>,
    a: Seq<u8>,
    k: Seq<Word>,
    v: Seq<Word>,
) -> Map<Seq<u8>, Map<Seq<Word>, Seq<Word>>> {
    let inner = if m.contains_key(a) {
        m[a]
    } else {
        Map::empty()
    };
    let inner2 = if v.len() == 0 {
        inner.remove(k)
    } else {
        inner.insert(k, v)
    };
    m.insert(a, inner2)
}

/// A sequence of mutations applied in order.
pub open spec fn apply_muts(
    m: Map<Seq<u8>, Map<Seq<Word>, Seq<Word>>>,
    ms: Seq<AddrMut>,
) -> Map<Seq<u8>, Map<Seq<Word>, Seq<Word>>>
    decreases ms.len(),
{
    if ms.len() == 0 {
        m
    } else {
        apply_muts(store_set_spec(m, ms[0].addr, ms[0].key, ms[0].value), ms.drop_first())
    }
}

/// Applying `ms.push(x)` is applying `ms`, then `x`.
pub proof fn lemma_apply_muts_push(
    m: Map<Seq<u8>, Map<Seq<Word>, Seq<Word>>>,
    ms: Seq<AddrMut>,
    x: AddrMut,
)
    ensures
        apply_muts(m, ms.push(x)) == store_set_spec(apply_muts(m, ms), x.addr, x.key, x.value),
    decreases ms.len(),
{
    if ms.len() == 0 {
        assert(ms.push(x)[0] == x);
        assert(ms.push(x).drop_first() =~= Seq::<AddrMut>::empty());
        assert(apply_muts(m, ms.push(x)) == apply_muts(
            store_set_spec(m, x.addr, x.key, x.value),
            ms.push(x).drop_first(),
        ));
        assert(apply_muts(store_set_spec(m, x.addr, x.key, x.value), Seq::<AddrMut>::empty())
            == store_set_spec(m, x.addr, x.key, x.value));
        assert(apply_muts(m, ms) == m);
    } else {
        assert(ms.push(x)[0] == ms[0]);
        assert(ms.push(x).drop_first() =~= ms.drop_first().push(x));
        lemma_apply_muts_push(store_set_spec(m, ms[0].addr, ms[0].key, ms[0].value),
            ms.drop_first(), x);
        assert(apply_muts(m, ms.push(x)) == apply_muts(
            store_set_spec(m, ms[0].addr, ms[0].key, ms[0].value),
            ms.drop_first().push(x),
        ));
        assert(apply_muts(m, ms) == apply_muts(
            store_set_spec(m, ms[0].addr, ms[0].key, ms[0].value),
            ms.drop_first(),
        ));
    }
}

/// The last value written to `(a, k)` by `ms`, if any.
pub open spec fn last_write(ms: Seq<AddrMut>, a: Seq<u8>, k: Seq<Word>) -> Option<Seq<Word>>
    decreases ms.len(),
{
    if ms.len() == 0 {
        None
    } else if ms.last().addr == a && ms.last().key == k {
        Some(ms.last().value)
    } else {
        last_write(ms.drop_last(), a, k)
    }
}

/// Whether `ms` writes any key under address `a`.
pub open spec fn writes_addr(ms: Seq<AddrMut>, a: Seq<u8>) -> bool {
    exists|i: int| 0 <= i < ms.len() && ms[i].addr == a
}

/// What applying a mutation sequence leaves at each address and key: the
/// address is present iff it was present before or is written; at each key the
/// last write (or deletion) wins, and unwritten keys keep their prior value.
pub proof fn lemma_apply_muts_at(
    m: Map<Seq<u8>, Map<Seq<Word>, Seq<Word>>>,
    ms: Seq<AddrMut>,
    a: Seq<u8>,
    k: Seq<Word>,
)
    ensures
        apply_muts(m, ms).contains_key(a) <==> (m.contains_key(a) || writes_addr(ms, a)),
        match last_write(ms, a, k) {
            Some(v) => apply_muts(m, ms).contains_key(a) && (if v.len() > 0 {
                apply_muts(m, ms)[a].contains_key(k) && apply_muts(m, ms)[a][k] == v
            } else {
                !apply_muts(m, ms)[a].contains_key(k)
            }),
            None => {
                if m.contains_key(a) {
                    apply_muts(m, ms).contains_key(a) && (apply_muts(m, ms)[a].contains_key(k)
                        <==> m[a].contains_key(k)) && (m[a].contains_key(k) ==> apply_muts(m, ms)[a][k]
                        == m[a][k])
                } else if writes_addr(ms, a) {
                    apply_muts(m, ms).contains_key(a) && !apply_muts(m, ms)[a].contains_key(k)
                } else {
                    !apply_muts(m, ms).contains_key(a)
                }
            },
        },
    decreases ms.len(),
{
    if ms.len() > 0 {
        let t = ms.drop_last();
        let x = ms.last();
        assert(ms =~= t.push(x));
        lemma_apply_muts_push(m, t, x);
        lemma_apply_muts_at(m, t, a, k);
        assert(writes_addr(ms, a) <==> (writes_addr(t, a) || x.addr == a)) by {
            if writes_addr(ms, a) {
                let i = choose|i: int| 0 <= i < ms.len() && ms[i].addr == a;
                if i < ms.len() - 1 {
                    assert(t[i].addr == a);
                }
            }
            if writes_addr(t, a) {
                let i = choose|i: int| 0 <= i < t.len() && t[i].addr == a;
                assert(ms[i].addr == a);
            }
            if x.addr == a {
                assert(ms[ms.len() - 1].addr == a);
            }
        }
    }
}

/// Applying one mutation sequence twice leaves the store exactly as applying
/// it once: mutation application is idempotent.
pub proof fn lemma_apply_muts_idempotent(
    m: Map<Seq<u8>, Map<Seq<Word>, Seq<Word>>>,
    ms: Seq<AddrMut>,
)
    ensures
        apply_muts(apply_muts(m, ms), ms) == apply_muts(m, ms),
{
    let m1 = apply_muts(m, ms);
    let m2 = apply_muts(m1, ms);
    assert forall|a: Seq<u8>| m2.contains_key(a) <==> m1.contains_key(a) by {
        lemma_apply_muts_at(m, ms, a, Seq::empty());
        lemma_apply_muts_at(m1, ms, a, Seq::empty());
    }
    assert forall|a: Seq<u8>| #[trigger] m2.contains_key(a) implies m2[a] =~= m1[a] by {
        assert forall|k: Seq<Word>| m2[a].contains_key(k) <==> m1[a].contains_key(k) by {
            lemma_apply_muts_at(m, ms, a, k);
            lemma_apply_muts_at(m1, ms, a, k);
        }
        assert forall|k: Seq<Word>| #[trigger] m2[a].contains_key(k) implies m2[a][k] == m1[a][k] by {
            lemma_apply_muts_at(m, ms, a, k);
            lemma_apply_muts_at(m1, ms, a, k);
        }
    }
    assert(m2 =~~= m1);
}

/// Entry sequences with pointwise-equal keys and values have one map view.
proof fn lemma_kvs_map_congruent(a: Seq<StoreKv>, b: Seq<StoreKv>)
    requires
        a.len() == b.len(),
        forall|i: int| 0 <= i < a.len() ==> a[i].key@ == b[i].key@ && a[i].value@ == b[i].value@,
    ensures
        kvs_map(a) == kvs_map(b),
    decreases a.len(),
{
    if a.len() > 0 {
        lemma_kvs_map_congruent(a.drop_last(), b.drop_last());
    }
}

impl Store {
    /// A copy of the store holding the same state.
    pub fn duplicate(&self) -> (r: Store)
        requires
            self.wf(),
        ensures
            r.wf(),
            r@ == self@,
    {
        let mut contracts: Vec<StoreContract> = Vec::new();
        let mut i: usize = 0;
        while i < self.contracts.len()
            invariant
                0 <= i <= self.contracts@.len(),
                contracts_wf(self.contracts@),
                contracts@.len() == i,
                forall|j: int|
                    0 <= j < i ==> #[trigger] contracts@[j].addr@ == self.contracts@[j].addr@
                        && kvs_wf(contracts@[j].entries@) && kvs_map(contracts@[j].entries@)
                        == kvs_map(self.contracts@[j].entries@),
            decreases self.contracts@.len() - i,
        {
            let src = &self.contracts[i];
            let mut entries: Vec<StoreKv> = Vec::new();
            let mut k: usize = 0;
            while k < src.entries.len()
                invariant
                    0 <= k <= src.entries@.len(),
                    entries@.len() == k,
                    forall|j: int|
                        0 <= j < k ==> #[trigger] entries@[j].key@ == src.entries@[j].key@
                            && entries@[j].value@ == src.entries@[j].value@,
                decreases src.entries@.len() - k,
            {
                entries.push(
                    StoreKv {
                        key: clone_words(&src.entries[k].key),
                        value: clone_words(&src.entries[k].value),
                    },
                );
                k += 1;
            }
            proof {
                assert forall|j: int|
                    0 <= j < entries@.len() implies entries@[j].key@ == src.entries@[j].key@
                    && entries@[j].value@ == src.entries@[j].value@ by {
                    assert(entries@[j].key@ == src.entries@[j].key@);
                }
                assert(kvs_wf(entries@));
                lemma_kvs_map_congruent(entries@, src.entries@);
            }
            contracts.push(StoreContract { addr: src.addr, entries });
            proof {
                assert(contracts@[i as int].addr@ == self.contracts@[i as int].addr@);
            }
            i += 1;
        }
        let r = Store { contracts };
        proof {
            assert forall|j: int|
                0 <= j < r.contracts@.len() implies r.contracts@[j].addr@
                == self.contracts@[j].addr@ && kvs_map(r.contracts@[j].entries@) == kvs_map(
                self.contracts@[j].entries@,
            ) by {
                assert(r.contracts@[j].addr@ == self.contracts@[j].addr@);
            }
            lemma_store_map_congruent(r.contracts@, self.contracts@);
            assert(contracts_wf(r.contracts@));
        }
        r
    }
}

/// Contract sequences with equal addresses and entry views have one store view.
proof fn lemma_store_map_congruent(a: Seq<StoreContract>, b: Seq<StoreContract>)
    requires
        a.len() == b.len(),
        forall|i: int|
            0 <= i < a.len() ==> #[trigger] a[i].addr@ == b[i].addr@ && kvs_map(a[i].entries@)
                == kvs_map(b[i].entries@),
    ensures
        store_map(a) == store_map(b),
    decreases a.len(),
{
    if a.len() > 0 {
        lemma_store_map_congruent(a.drop_last(), b.drop_last());
    }
}


impl Store {
    /// Insert `value` at `(addr, key)` under an existing contract, keeping
    /// the value even when empty.
    #[verifier::loop_isolation(false)]
    pub fn put(&mut self, addr: &Addr, key: Key, value: Value)
        requires
            old(self).wf(),
            old(self)@.contains_key(addr@),
        ensures
            final(self).wf(),
            final(self)@ == old(self)@.insert(addr@, old(self)@[addr@].insert(key@, value@)),
    {
        proof {
            lemma_store_map(self.contracts@, addr@);
        }
        let ci = match self.find_contract(addr) {
            Some(ci) => ci,
            None => {
                proof {
                    assert(false);
                }
                return ;
            },
        };
        let ghost s0 = self.contracts@;
        let ghost inner0 = kvs_map(s0[ci as int].entries@);
        let mut c = self.contracts.remove(ci);
        let ghost e0 = c.entries@;
        let j_found = Self::find_key(&c.entries, &key);
        proof {
            lemma_kvs_map(e0, key@);
        }
        if let Some(j) = j_found {
            c.entries.remove(j);
            proof {
                lemma_kvs_map_remove(e0, j as int);
            }
        }
        let ghost e1 = c.entries@;
        proof {
            assert(kvs_wf(e1)) by {
                if let Some(j) = j_found {
                    assert(forall|x: int, y: int|
                        0 <= x < y < e1.len() ==> e1[x].key@ != e1[y].key@);
                }
            }
            assert(forall|x: int| 0 <= x < e1.len() ==> e1[x].key@ != key@) by {
                if let Some(j) = j_found {
                    assert(forall|x: int|
                        0 <= x < e1.len() ==> (e1[x] == e0[x] || e1[x] == e0[x + 1]));
                }
            }
        }
        c.entries.push(StoreKv { key, value });
        proof {
            assert(c.entries@.drop_last() =~= e1);
            assert(kvs_wf(c.entries@));
            assert(kvs_map(c.entries@) =~= inner0.insert(key@, value@));
        }
        let ghost cnew = c;
        self.contracts.insert(ci, c);
        proof {
            assert(self.contracts@ =~= s0.update(ci as int, cnew));
            lemma_store_map_update(s0, ci as int, cnew);
        }
    }

    /// Set the contract at `addr` to hold no state, creating it if absent.
    pub fn put_empty(&mut self, addr: &Addr)
        requires
            old(self).wf(),
        ensures
            final(self).wf(),
            final(self)@ == old(self)@.insert(addr@, Map::empty()),
    {
        proof {
            lemma_store_map(self.contracts@, addr@);
        }
        let ghost s0 = self.contracts@;
        match self.find_contract(addr) {
            Some(ci) => {
                let mut c = self.contracts.remove(ci);
                c.entries = Vec::new();
                let ghost cnew = c;
                self.contracts.insert(ci, c);
                proof {
                    assert(self.contracts@ =~= s0.update(ci as int, cnew));
                    lemma_store_map_update(s0, ci as int, cnew);
                }
            },
            None => {
                let c = StoreContract { addr: *addr, entries: Vec::new() };
                self.contracts.push(c);
                proof {
                    assert(self.contracts@.drop_last() =~= s0);
                    assert(self.contracts@.last() == c);
                }
            },
        }
    }
}


} // verus!
