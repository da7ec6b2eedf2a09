//! Plain data model for solutions and predicates: the caller-supplied
//! inputs that the stepping engine and snapshot builder read.

use vstd::prelude::*;

verus! {

/// A single machine word.
pub type Word = i64;

/// A state key: an ordered tuple of words.
pub type Key = Vec<Word>;

/// A state value: an ordered sequence of words; empty means absent/deleted.
pub type Value = Vec<Word>;

/// A 32-byte content address.
pub type Addr = [u8; 32];

/// A declared mutation: sets `key` to `value`; an empty value deletes.
#[derive(Debug, Clone, PartialEq, Eq)]
pub struct Mutation {
    /// Key to mutate.
    pub key: Key,
    /// New value; empty means delete.
    pub value: Value,
}

/// Mathematical view of a [`Mutation`].
pub struct MutationV {
    /// Key to mutate.
    pub key: Seq<Word>,
    /// New value; empty means delete.
    pub value: Seq<Word>,
}

impl View for Mutation {
    type V = MutationV;

    open spec fn view(&self) -> MutationV {
        MutationV { key: self.key@, value: self.value@ }
    }
}

impl DeepView for Mutation {
    type V = MutationV;

    open spec fn deep_view(&self) -> MutationV {
        self@
    }
}

/// The address of a predicate: its contract and its own content address.
#[derive(Debug, Clone, PartialEq, Eq)]
pub struct PredicateAddress {
    /// Content address of the contract the predicate was deployed with.
    pub contract: Addr,
    /// Content address of the predicate itself.
    pub predicate: Addr,
}

/// Mathematical view of a [`PredicateAddress`].
pub struct PredicateAddressV {
    /// Contract address bytes.
    pub contract: Seq<u8>,
    /// Predicate address bytes.
    pub predicate: Seq<u8>,
}

impl View for PredicateAddress {
    type V = PredicateAddressV;

    open spec fn view(&self) -> PredicateAddressV {
        PredicateAddressV { contract: self.contract@, predicate: self.predicate@ }
    }
}

impl DeepView for PredicateAddress {
    type V = PredicateAddressV;

    open spec fn deep_view(&self) -> PredicateAddressV {
        self@
    }
}

/// One solution entry: the data supplied to solve one predicate.
#[derive(Debug, Clone, PartialEq, Eq)]
pub struct SolutionData {
    /// Which predicate this entry solves.
    pub predicate_to_solve: PredicateAddress,
    /// The decision variables, one value per slot.
    pub decision_variables: Vec<Value>,
    /// Transient key/value payloads visible only during this execution.
    pub transient_data: Vec<Mutation>,
    /// The state mutations this entry declares.
    pub state_mutations: Vec<Mutation>,
}

/// Mathematical view of a [`SolutionData`].
pub struct SolutionDataV {
    /// Which predicate this entry solves.
    pub predicate_to_solve: PredicateAddressV,
    /// The decision variables, one value per slot.
    pub decision_variables: Seq<Seq<Word>>,
    /// Transient key/value payloads.
    pub transient_data: Seq<MutationV>,
    /// The declared state mutations.
    pub state_mutations: Seq<MutationV>,
}

impl View for SolutionData {
    type V = SolutionDataV;

    open spec fn view(&self) -> SolutionDataV {
        SolutionDataV {
            predicate_to_solve: self.predicate_to_solve@,
            decision_variables: self.decision_variables.deep_view(),
            transient_data: self.transient_data.deep_view(),
            state_mutations: self.state_mutations.deep_view(),
        }
    }
}

impl DeepView for SolutionData {
    type V = SolutionDataV;

    open spec fn deep_view(&self) -> SolutionDataV {
        self@
    }
}

/// A solution: the ordered entries, one per predicate being solved.
#[derive(Debug, Clone, PartialEq, Eq)]
pub struct SolutionModel {
    /// The input data for each predicate.
    pub data: Vec<SolutionData>,
}

/// Mathematical view of a [`SolutionModel`].
pub struct SolutionV {
    /// The entries in order.
    pub data: Seq<SolutionDataV>,
}

impl View for SolutionModel {
    type V = SolutionV;

    open spec fn view(&self) -> SolutionV {
        SolutionV { data: self.data.deep_view() }
    }
}

impl DeepView for SolutionModel {
    type V = SolutionV;

    open spec fn deep_view(&self) -> SolutionV {
        self@
    }
}

/// The directive of a predicate.
#[derive(Debug, Clone, PartialEq, Eq)]
pub enum Directive {
    /// All constraints must be satisfied.
    Satisfy,
    /// Maximize the objective bytecode's value.
    Maximize(Vec<u8>),
    /// Minimize the objective bytecode's value.
    Minimize(Vec<u8>),
}

/// An individual predicate: its state-read and constraint programs.
#[derive(Debug, Clone, PartialEq, Eq)]
pub struct Predicate {
    /// The programs that read state, as raw bytecode.
    pub state_read: Vec<Vec<u8>>,
    /// The programs that check constraints, as raw bytecode.
    pub constraints: Vec<Vec<u8>>,
    /// The directive for the predicate.
    pub directive: Directive,
}

/// Mathematical view of a [`Directive`].
pub enum DirectiveV {
    /// All constraints must be satisfied.
    Satisfy,
    /// Maximize the objective bytecode's value.
    Maximize(Seq<u8>),
    /// Minimize the objective bytecode's value.
    Minimize(Seq<u8>),
}

impl View for Directive {
    type V = DirectiveV;

    open spec fn view(&self) -> DirectiveV {
        match self {
            Directive::Satisfy => DirectiveV::Satisfy,
            Directive::Maximize(b) => DirectiveV::Maximize(b@),
            Directive::Minimize(b) => DirectiveV::Minimize(b@),
        }
    }
}

impl DeepView for Directive {
    type V = DirectiveV;

    open spec fn deep_view(&self) -> DirectiveV {
        self@
    }
}

/// Mathematical view of a [`Predicate`].
pub struct PredicateV {
    /// The state-read programs.
    pub state_read: Seq<Seq<u8>>,
    /// The constraint programs.
    pub constraints: Seq<Seq<u8>>,
    /// The directive.
    pub directive: DirectiveV,
}

impl View for Predicate {
    type V = PredicateV;

    open spec fn view(&self) -> PredicateV {
        PredicateV {
            state_read: self.state_read.deep_view(),
            constraints: self.constraints.deep_view(),
            directive: self.directive@,
        }
    }
}

impl DeepView for Predicate {
    type V = PredicateV;

    open spec fn deep_view(&self) -> PredicateV {
        self@
    }
}

} // verus!
