//! A fluent builder for test state: scoped writes into a [`Store`], keyed by
//! named contracts, with key paths assembled from map keys and tuple
//! indices. The builder moves through scopes — no scope, a contract scope, a
//! key scope, a tuple-index scope — and each write returns to the contract
//! scope. Names are pairwise distinct, so each binds exactly one address.

use vstd::prelude::*;

use essential_types::{contract, predicate};

use crate::model::{Addr, Key, Predicate, PredicateV, Value, Word};
use crate::store::Store;

verus! {

/// A named contract address registered with the builder.
pub struct NamedAddr {
    /// The contract's name.
    pub name: String,
    /// The contract's address.
    pub addr: Addr,
}

/// A contract scope; `K` carries the key path being assembled.
pub struct Contract<K> {
    /// The scoped contract's address.
    pub address: Addr,
    /// The key path assembled so far.
    pub key: K,
}

/// A contract scope with a complete key.
pub type ContractKey = Contract<Key>;

/// A contract scope inside a tuple: the key prefix and the pending index.
pub struct ContractIndex {
    /// The scoped contract's address.
    pub address: Addr,
    /// The key words assembled so far.
    pub prefix: Key,
    /// The tuple index not yet appended.
    pub index: Word,
}

/// The builder: the state written so far, the named contracts, and the
/// current scope.
pub struct StateBuilder<KV> {
    /// The state written so far.
    pub state: Store,
    /// The named contract addresses.
    pub intents: Vec<NamedAddr>,
    /// The current scope.
    pub kv: KV,
}

/// Whether a name is registered.
pub open spec fn has_name(s: Seq<NamedAddr>, n: Seq<char>) -> bool {
    exists|i: int| 0 <= i < s.len() && s[i].name@ == n
}

/// Registered names are pairwise distinct, so each name binds one address.
pub open spec fn names_unique(s: Seq<NamedAddr>) -> bool {
    forall|i: int, j: int| 0 <= i < j < s.len() ==> s[i].name@ != s[j].name@
}

/// The address a registered name is bound to.
pub open spec fn addr_of_name(s: Seq<NamedAddr>, n: Seq<char>) -> Seq<u8> {
    s[choose|i: int| 0 <= i < s.len() && s[i].name@ == n].addr@
}

/// Under distinct names, any index holding the name gives its bound address.
proof fn lemma_addr_of_name(s: Seq<NamedAddr>, i: int)
    requires
        names_unique(s),
        0 <= i < s.len(),
    ensures
        addr_of_name(s, s[i].name@) == s[i].addr@,
{
    let c = choose|c: int| 0 <= c < s.len() && s[c].name@ == s[i].name@;
    if c != i {
        assert(s[c].name@ != s[i].name@);
    }
}

/// The content address of a contract holding the given predicates with the
/// given salt: the hash the chain derives for it.
pub uninterp spec fn contract_addr_of(predicates: Seq<PredicateV>, salt: Seq<u8>) -> Seq<u8>;

/// Relies on `essential_hash::contract_addr::from_contract`: a contract's
/// content address is a function of its predicates and salt alone.
#[verifier::external_body]
fn contract_address(predicates: &[Predicate], salt: &Addr) -> (r: Addr)
    ensures
        r@ == contract_addr_of(predicates.deep_view(), salt@),
{
    let predicates = predicates.iter().map(|p| predicate::Predicate {
        state_read: p.state_read.clone(),
        constraints: p.constraints.clone(),
        directive: match &p.directive {
            crate::model::Directive::Satisfy => predicate::Directive::Satisfy,
            crate::model::Directive::Maximize(b) => predicate::Directive::Maximize(b.clone()),
            crate::model::Directive::Minimize(b) => predicate::Directive::Minimize(b.clone()),
        },
    }).collect();
    essential_hash::contract_addr::from_contract(&contract::Contract { predicates, salt: *salt }).0
}

/// Whether two strings hold the same characters.
fn name_eq(a: &str, b: &str) -> (r: bool)
    ensures
        r == (a@ == b@),
{
    let na = a.unicode_len();
    let nb = b.unicode_len();
    if na != nb {
        return false;
    }
    let mut i: usize = 0;
    while i < na
        invariant
            0 <= i <= na,
            na == a@.len(),
            na == b@.len(),
            forall|j: int| 0 <= j < i ==> a@[j] == b@[j],
        decreases na - i,
    {
        if a.get_char(i) != b.get_char(i) {
            return false;
        }
        i += 1;
    }
    assert(a@ =~= b@);
    true
}

impl StateBuilder<()> {
    /// An empty builder: no state, no names, no scope.
    pub fn new() -> (r: StateBuilder<()>)
        ensures
            r.state.wf(),
            r.state@ == Map::<Seq<u8>, Map<Seq<Word>, Seq<Word>>>::empty(),
            r.intents@.len() == 0,
            names_unique(r.intents@),
    {
        StateBuilder { state: Store::new(), intents: Vec::new(), kv: () }
    }
}

impl Default for StateBuilder<()> {
    /// An empty builder: no state, no names, no scope.
    fn default() -> (r: StateBuilder<()>)
        ensures
            r.state.wf(),
            r.state@ == Map::<Seq<u8>, Map<Seq<Word>, Seq<Word>>>::empty(),
            r.intents@.len() == 0,
            names_unique(r.intents@),
    {
        StateBuilder::new()
    }
}

impl<KV> StateBuilder<KV> {
    /// Register a contract address under a name. A new name gets an empty
    /// state entry for the address; re-registering a name rebinds it to the
    /// new address without touching the state. Other names keep their
    /// bindings.
    #[verifier::loop_isolation(false)]
    pub fn with_contract_address(self, name: String, address: Addr) -> (r: StateBuilder<KV>)
        requires
            self.state.wf(),
            names_unique(self.intents@),
        ensures
            r.state.wf(),
            names_unique(r.intents@),
            r.kv == self.kv,
            has_name(r.intents@, name@),
            addr_of_name(r.intents@, name@) == address@,
            !has_name(self.intents@, name@) ==> {
                &&& r.state@ == self.state@.insert(address@, Map::empty())
                &&& r.intents@.len() == self.intents@.len() + 1
            },
            has_name(self.intents@, name@) ==> r.state@ == self.state@,
            forall|n: Seq<char>|
                n != name@ ==> (#[trigger] has_name(r.intents@, n) <==> has_name(
                    self.intents@,
                    n,
                )),
            forall|n: Seq<char>|
                n != name@ && has_name(self.intents@, n) ==> #[trigger] addr_of_name(
                    r.intents@,
                    n,
                ) == addr_of_name(self.intents@, n),
    {
        let mut this = self;
        let mut i: usize = 0;
        while i < this.intents.len()
            invariant
                0 <= i <= this.intents@.len(),
                this == self,
                forall|j: int| 0 <= j < i ==> this.intents@[j].name@ != name@,
            decreases this.intents@.len() - i,
        {
            if name_eq(this.intents[i].name.as_str(), name.as_str()) {
                proof {
                    assert(this.intents@[i as int].name@ == name@);
                }
                let ghost old_intents = this.intents@;
                let entry = &mut this.intents[i];
                entry.addr = address;
                proof {
                    let cur = this.intents@;
                    assert(cur.len() == old_intents.len());
                    assert(forall|j: int|
                        0 <= j < cur.len() ==> #[trigger] cur[j].name@ == old_intents[j].name@);
                    assert(names_unique(cur));
                    assert(cur[i as int].name@ == name@ && cur[i as int].addr@ == address@);
                    lemma_addr_of_name(cur, i as int);
                    assert forall|n: Seq<char>|
                        n != name@ implies (#[trigger] has_name(cur, n) <==> has_name(
                        old_intents,
                        n,
                    )) by {
                        if has_name(cur, n) {
                            let j = choose|j: int| 0 <= j < cur.len() && cur[j].name@ == n;
                            assert(old_intents[j].name@ == n);
                        }
                        if has_name(old_intents, n) {
                            let j = choose|j: int|
                                0 <= j < old_intents.len() && old_intents[j].name@ == n;
                            assert(cur[j].name@ == n);
                        }
                    }
                    assert forall|n: Seq<char>|
                        n != name@ && has_name(old_intents, n) implies #[trigger] addr_of_name(
                        cur,
                        n,
                    ) == addr_of_name(old_intents, n) by {
                        let j = choose|j: int|
                            0 <= j < old_intents.len() && old_intents[j].name@ == n;
                        assert(cur[j].name@ == n);
                        assert(j != i as int);
                        assert(cur[j].addr@ == old_intents[j].addr@);
                        lemma_addr_of_name(cur, j);
                        lemma_addr_of_name(old_intents, j);
                    }
                }
                return this;
            }
            i += 1;
        }
        let ghost old_intents = this.intents@;
        this.intents.push(NamedAddr { name, addr: address });
        this.state.put_empty(&address);
        proof {
            let cur = this.intents@;
            assert(cur.len() == old_intents.len() + 1);
            assert(forall|j: int| 0 <= j < old_intents.len() ==> cur[j] == old_intents[j]);
            assert(cur.last().name@ == name@ && cur.last().addr@ == address@);
            assert(names_unique(cur));
            lemma_addr_of_name(cur, cur.len() - 1);
            if has_name(old_intents, name@) {
                let w = choose|j: int| 0 <= j < old_intents.len() && old_intents[j].name@ == name@;
                assert(false);
            }
            assert forall|n: Seq<char>|
                n != name@ implies (#[trigger] has_name(cur, n) <==> has_name(
                old_intents,
                n,
            )) by {
                if has_name(cur, n) {
                    let j = choose|j: int| 0 <= j < cur.len() && cur[j].name@ == n;
                    assert(j < old_intents.len());
                    assert(old_intents[j].name@ == n);
                }
                if has_name(old_intents, n) {
                    let j = choose|j: int| 0 <= j < old_intents.len() && old_intents[j].name@ == n;
                    assert(cur[j].name@ == n);
                }
            }
            assert forall|n: Seq<char>|
                n != name@ && has_name(old_intents, n) implies #[trigger] addr_of_name(cur, n)
                == addr_of_name(old_intents, n) by {
                let j = choose|j: int| 0 <= j < old_intents.len() && old_intents[j].name@ == n;
                assert(cur[j].name@ == n);
                lemma_addr_of_name(cur, j);
                lemma_addr_of_name(old_intents, j);
            }
        }
        this
    }

    /// Register a contract under a name, addressed by the content address of
    /// its predicates (with a zero salt).
    pub fn with_contract(self, name: String, contract: &[Predicate]) -> (r: StateBuilder<KV>)
        requires
            self.state.wf(),
            names_unique(self.intents@),
        ensures
            r.state.wf(),
            names_unique(r.intents@),
            r.kv == self.kv,
            has_name(r.intents@, name@),
            addr_of_name(r.intents@, name@) == contract_addr_of(
                contract.deep_view(),
                Seq::new(32, |i: int| 0u8),
            ),
            !has_name(self.intents@, name@) ==> r.state@ == self.state@.insert(
                contract_addr_of(contract.deep_view(), Seq::new(32, |i: int| 0u8)),
                Map::empty(),
            ),
            has_name(self.intents@, name@) ==> r.state@ == self.state@,
            forall|n: Seq<char>|
                n != name@ ==> (#[trigger] has_name(r.intents@, n) <==> has_name(
                    self.intents@,
                    n,
                )),
            forall|n: Seq<char>|
                n != name@ && has_name(self.intents@, n) ==> #[trigger] addr_of_name(
                    r.intents@,
                    n,
                ) == addr_of_name(self.intents@, n),
    {
        let salt = [0u8; 32];
        proof {
            assert(salt@ =~= Seq::new(32, |i: int| 0u8));
        }
        let address = contract_address(contract, &salt);
        self.with_contract_address(name, address)
    }

    /// The state written so far.
    pub fn build(self) -> (r: Store)
        ensures
            r == self.state,
    {
        self.state
    }
}

impl StateBuilder<()> {
    /// Scope writes to a contract address.
    pub fn push_scope(self, contract: Addr) -> (r: StateBuilder<Contract<()>>)
        ensures
            r.state == self.state,
            r.intents == self.intents,
            r.kv.address@ == contract@,
    {
        StateBuilder {
            state: self.state,
            intents: self.intents,
            kv: Contract { address: contract, key: () },
        }
    }

    /// Scope writes to the contract registered under `name`.
    #[verifier::loop_isolation(false)]
    pub fn push(self, name: &str) -> (r: StateBuilder<Contract<()>>)
        requires
            names_unique(self.intents@),
            has_name(self.intents@, name@),
        ensures
            r.state == self.state,
            r.intents == self.intents,
            r.kv.address@ == addr_of_name(self.intents@, name@),
    {
        let mut i: usize = 0;
        while i < self.intents.len()
            invariant
                0 <= i <= self.intents@.len(),
                forall|j: int| 0 <= j < i ==> self.intents@[j].name@ != name@,
            decreases self.intents@.len() - i,
        {
            if name_eq(self.intents[i].name.as_str(), name) {
                let address = self.intents[i].addr;
                proof {
                    assert(self.intents@[i as int].name@ == name@);
                    lemma_addr_of_name(self.intents@, i as int);
                }
                return self.push_scope(address);
            }
            i += 1;
        }
        proof {
            assert(false);
        }
        vstd::pervasive::unreached()
    }
}

impl StateBuilder<Contract<()>> {
    /// Begin a key at the scoped contract.
    pub fn with_key(self, key: Key) -> (r: StateBuilder<ContractKey>)
        ensures
            r.state == self.state,
            r.intents == self.intents,
            r.kv.address == self.kv.address,
            r.kv.key@ == key@,
    {
        StateBuilder {
            state: self.state,
            intents: self.intents,
            kv: Contract { address: self.kv.address, key },
        }
    }

    /// Begin a tuple at the scoped contract.
    pub fn with_index(self, index: Word) -> (r: StateBuilder<ContractIndex>)
        ensures
            r.state == self.state,
            r.intents == self.intents,
            r.kv.address == self.kv.address,
            r.kv.prefix@ == Seq::<Word>::empty(),
            r.kv.index == index,
    {
        StateBuilder {
            state: self.state,
            intents: self.intents,
            kv: ContractIndex { address: self.kv.address, prefix: Vec::new(), index },
        }
    }

    /// Leave the contract scope.
    pub fn pop(self) -> (r: StateBuilder<()>)
        ensures
            r.state == self.state,
            r.intents == self.intents,
    {
        StateBuilder { state: self.state, intents: self.intents, kv: () }
    }
}

impl StateBuilder<ContractIndex> {
    /// Complete the key: the assembled prefix, the pending index, then the
    /// given words.
    pub fn with_key(self, key: Key) -> (r: StateBuilder<ContractKey>)
        ensures
            r.state == self.state,
            r.intents == self.intents,
            r.kv.address == self.kv.address,
            r.kv.key@ == self.kv.prefix@ + seq![self.kv.index] + key@,
    {
        let mut k = self.kv.prefix;
        k.push(self.kv.index);
        let mut key = key;
        k.append(&mut key);
        StateBuilder {
            state: self.state,
            intents: self.intents,
            kv: Contract { address: self.kv.address, key: k },
        }
    }

    /// Write an integer at the assembled key.
    pub fn with_int(self, value: Word) -> (r: StateBuilder<Contract<()>>)
        requires
            self.state.wf(),
            self.state@.contains_key(self.kv.address@),
        ensures
            r.state.wf(),
            r.intents == self.intents,
            r.kv.address == self.kv.address,
            r.state@ == self.state@.insert(
                self.kv.address@,
                self.state@[self.kv.address@].insert(
                    self.kv.prefix@ + seq![self.kv.index],
                    seq![value],
                ),
            ),
    {
        self.with_key(Vec::new()).with_int(value)
    }

    /// Write a boolean at the assembled key.
    pub fn with_bool(self, value: bool) -> (r: StateBuilder<Contract<()>>)
        requires
            self.state.wf(),
            self.state@.contains_key(self.kv.address@),
        ensures
            r.state.wf(),
            r.intents == self.intents,
            r.kv.address == self.kv.address,
            r.state@ == self.state@.insert(
                self.kv.address@,
                self.state@[self.kv.address@].insert(
                    self.kv.prefix@ + seq![self.kv.index],
                    seq![
                        (if value {
                            1i64
                        } else {
                            0i64
                        }),
                    ],
                ),
            ),
    {
        self.with_key(Vec::new()).with_bool(value)
    }

    /// Write a 256-bit value at the assembled key.
    pub fn with_b256(self, value: [Word; 4]) -> (r: StateBuilder<Contract<()>>)
        requires
            self.state.wf(),
            self.state@.contains_key(self.kv.address@),
        ensures
            r.state.wf(),
            r.intents == self.intents,
            r.kv.address == self.kv.address,
            r.state@ == self.state@.insert(
                self.kv.address@,
                self.state@[self.kv.address@].insert(self.kv.prefix@ + seq![self.kv.index], value@),
            ),
    {
        self.with_key(Vec::new()).with_b256(value)
    }

    /// Extend the key with a map's integer key.
    pub fn with_map_int(self, key: Word) -> (r: StateBuilder<ContractKey>)
        ensures
            r.state == self.state,
            r.intents == self.intents,
            r.kv.address == self.kv.address,
            r.kv.key@ == self.kv.prefix@ + seq![self.kv.index] + seq![key],
    {
        let mut k: Key = Vec::new();
        k.push(key);
        self.with_key(k)
    }

    /// Extend the key with a map's boolean key.
    pub fn with_map_bool(self, key: bool) -> (r: StateBuilder<ContractKey>)
        ensures
            r.state == self.state,
            r.intents == self.intents,
            r.kv.address == self.kv.address,
            r.kv.key@ == self.kv.prefix@ + seq![self.kv.index] + seq![
                (if key {
                    1i64
                } else {
                    0i64
                }),
            ],
    {
        let mut k: Key = Vec::new();
        k.push(if key {
            1
        } else {
            0
        });
        self.with_key(k)
    }

    /// Extend the key with a map's 256-bit key.
    pub fn with_map_b256(self, key: [Word; 4]) -> (r: StateBuilder<ContractKey>)
        ensures
            r.state == self.state,
            r.intents == self.intents,
            r.kv.address == self.kv.address,
            r.kv.key@ == self.kv.prefix@ + seq![self.kv.index] + key@,
    {
        let mut k: Key = Vec::new();
        k.push(key[0]);
        k.push(key[1]);
        k.push(key[2]);
        k.push(key[3]);
        proof {
            assert(k@ =~= key@);
        }
        self.with_key(k)
    }

    /// Step into a nested tuple: the pending index joins the prefix.
    pub fn with_tuple(self, index: Word) -> (r: StateBuilder<ContractIndex>)
        ensures
            r.state == self.state,
            r.intents == self.intents,
            r.kv.address == self.kv.address,
            r.kv.prefix@ == self.kv.prefix@ + seq![self.kv.index],
            r.kv.index == index,
    {
        let mut prefix = self.kv.prefix;
        prefix.push(self.kv.index);
        StateBuilder {
            state: self.state,
            intents: self.intents,
            kv: ContractIndex { address: self.kv.address, prefix, index },
        }
    }
}

impl StateBuilder<ContractKey> {
    /// Write a value at the assembled key and return to the contract scope.
    pub fn with_value(self, value: Value) -> (r: StateBuilder<Contract<()>>)
        requires
            self.state.wf(),
            self.state@.contains_key(self.kv.address@),
        ensures
            r.state.wf(),
            r.intents == self.intents,
            r.kv.address == self.kv.address,
            r.state@ == self.state@.insert(
                self.kv.address@,
                self.state@[self.kv.address@].insert(self.kv.key@, value@),
            ),
    {
        let mut state = self.state;
        state.put(&self.kv.address, self.kv.key, value);
        StateBuilder {
            state,
            intents: self.intents,
            kv: Contract { address: self.kv.address, key: () },
        }
    }

    /// Write an integer at the assembled key.
    pub fn with_int(self, value: Word) -> (r: StateBuilder<Contract<()>>)
        requires
            self.state.wf(),
            self.state@.contains_key(self.kv.address@),
        ensures
            r.state.wf(),
            r.intents == self.intents,
            r.kv.address == self.kv.address,
            r.state@ == self.state@.insert(
                self.kv.address@,
                self.state@[self.kv.address@].insert(self.kv.key@, seq![value]),
            ),
    {
        let mut v: Value = Vec::new();
        v.push(value);
        proof {
            assert(v@ =~= seq![value]);
        }
        self.with_value(v)
    }

    /// Write a boolean at the assembled key.
    pub fn with_bool(self, value: bool) -> (r: StateBuilder<Contract<()>>)
        requires
            self.state.wf(),
            self.state@.contains_key(self.kv.address@),
        ensures
            r.state.wf(),
            r.intents == self.intents,
            r.kv.address == self.kv.address,
            r.state@ == self.state@.insert(
                self.kv.address@,
                self.state@[self.kv.address@].insert(
                    self.kv.key@,
                    seq![
                        (if value {
                            1i64
                        } else {
                            0i64
                        }),
                    ],
                ),
            ),
    {
        let mut v: Value = Vec::new();
        v.push(if value {
            1
        } else {
            0
        });
        self.with_value(v)
    }

    /// Write a 256-bit value at the assembled key.
    pub fn with_b256(self, value: [Word; 4]) -> (r: StateBuilder<Contract<()>>)
        requires
            self.state.wf(),
            self.state@.contains_key(self.kv.address@),
        ensures
            r.state.wf(),
            r.intents == self.intents,
            r.kv.address == self.kv.address,
            r.state@ == self.state@.insert(
                self.kv.address@,
                self.state@[self.kv.address@].insert(self.kv.key@, value@),
            ),
    {
        let mut v: Value = Vec::new();
        v.push(value[0]);
        v.push(value[1]);
        v.push(value[2]);
        v.push(value[3]);
        proof {
            assert(v@ =~= value@);
        }
        self.with_value(v)
    }

    /// Extend the key with a map's integer key.
    pub fn with_map_int(self, key: Word) -> (r: StateBuilder<ContractKey>)
        ensures
            r.state == self.state,
            r.intents == self.intents,
            r.kv.address == self.kv.address,
            r.kv.key@ == self.kv.key@ + seq![key],
    {
        let mut k = self.kv.key;
        k.push(key);
        StateBuilder {
            state: self.state,
            intents: self.intents,
            kv: Contract { address: self.kv.address, key: k },
        }
    }

    /// Extend the key with a map's boolean key.
    pub fn with_map_bool(self, key: bool) -> (r: StateBuilder<ContractKey>)
        ensures
            r.state == self.state,
            r.intents == self.intents,
            r.kv.address == self.kv.address,
            r.kv.key@ == self.kv.key@ + seq![
                (if key {
                    1i64
                } else {
                    0i64
                }),
            ],
    {
        let mut k = self.kv.key;
        k.push(if key {
            1
        } else {
            0
        });
        StateBuilder {
            state: self.state,
            intents: self.intents,
            kv: Contract { address: self.kv.address, key: k },
        }
    }

    /// Extend the key with a map's 256-bit key.
    pub fn with_map_b256(self, key: [Word; 4]) -> (r: StateBuilder<ContractKey>)
        ensures
            r.state == self.state,
            r.intents == self.intents,
            r.kv.address == self.kv.address,
            r.kv.key@ == self.kv.key@ + key@,
    {
        let mut k = self.kv.key;
        k.push(key[0]);
        k.push(key[1]);
        k.push(key[2]);
        k.push(key[3]);
        proof {
            assert(k@ =~= self.kv.key@ + key@);
        }
        StateBuilder {
            state: self.state,
            intents: self.intents,
            kv: Contract { address: self.kv.address, key: k },
        }
    }

    /// Step into a tuple: the assembled key becomes the prefix.
    pub fn with_tuple(self, index: Word) -> (r: StateBuilder<ContractIndex>)
        ensures
            r.state == self.state,
            r.intents == self.intents,
            r.kv.address == self.kv.address,
            r.kv.prefix@ == self.kv.key@,
            r.kv.index == index,
    {
        StateBuilder {
            state: self.state,
            intents: self.intents,
            kv: ContractIndex { address: self.kv.address, prefix: self.kv.key, index },
        }
    }
}

/// The address registered under `name`, if any: with distinct names, exactly
/// the name's bound address.
#[verifier::loop_isolation(false)]
pub fn named_address_in(intents: &Vec<NamedAddr>, name: &str) -> (r: Option<Addr>)
    ensures
        match r {
            Some(a) => has_name(intents@, name@) && (exists|i: int|
                0 <= i < intents@.len() && intents@[i].name@ == name@ && intents@[i].addr@ == a@)
                && (names_unique(intents@) ==> a@ == addr_of_name(intents@, name@)),
            None => !has_name(intents@, name@),
        },
{
    let mut i: usize = 0;
    while i < intents.len()
        invariant
            0 <= i <= intents@.len(),
            forall|j: int| 0 <= j < i ==> intents@[j].name@ != name@,
        decreases intents@.len() - i,
    {
        if name_eq(intents[i].name.as_str(), name) {
            proof {
                assert(intents@[i as int].name@ == name@);
                if names_unique(intents@) {
                    lemma_addr_of_name(intents@, i as int);
                }
            }
            return Some(intents[i].addr);
        }
        i += 1;
    }
    None
}

} // verus!
