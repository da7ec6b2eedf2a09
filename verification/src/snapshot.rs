//! The state-snapshot builder: derive the PRE and POST state-slot arrays by
//! running each of a predicate's state-read programs twice, once against the
//! base store and once against the store with the solution's mutations
//! applied. The builder owns the stores and the sequencing; the caller runs
//! each requested program through its state-read executor and hands the
//! resulting slots back. Once built, the slot arrays never change.

use vstd::prelude::*;

use crate::model::{SolutionModel, Value, Word};
use crate::store::{apply_muts, sol_muts, Store};

verus! {

/// The pre- and post-mutation state-slot arrays, in program order.
pub struct Slots {
    /// State slot values before the solution's mutations are applied.
    pub pre: Vec<Value>,
    /// State slot values after the solution's mutations are applied.
    pub post: Vec<Value>,
}

/// An in-progress snapshot build. Each state-read program runs twice, first
/// against the base ("pre") store, then against the mutated ("post") store;
/// programs run in order and each run appends its slots to the matching
/// array.
pub struct SnapshotBuild {
    programs: Vec<Vec<u8>>,
    pre_store: Store,
    post_store: Store,
    pre: Vec<Value>,
    post: Vec<Value>,
    next: usize,
    post_phase: bool,
}

impl SnapshotBuild {
    /// The state-read programs, as given.
    pub closed spec fn programs_v(&self) -> Seq<Seq<u8>> {
        self.programs.deep_view()
    }

    /// The pre-mutation slots collected so far.
    pub closed spec fn pre_v(&self) -> Seq<Seq<Word>> {
        self.pre.deep_view()
    }

    /// The post-mutation slots collected so far.
    pub closed spec fn post_v(&self) -> Seq<Seq<Word>> {
        self.post.deep_view()
    }

    /// The base store's state.
    pub closed spec fn pre_store_v(&self) -> Map<Seq<u8>, Map<Seq<Word>, Seq<Word>>> {
        self.pre_store@
    }

    /// The mutated store's state.
    pub closed spec fn post_store_v(&self) -> Map<Seq<u8>, Map<Seq<Word>, Seq<Word>>> {
        self.post_store@
    }

    /// The index of the program whose runs are next.
    pub closed spec fn next_v(&self) -> nat {
        self.next as nat
    }

    /// Whether the next run is the post-mutation run of the program.
    pub closed spec fn post_phase_v(&self) -> bool {
        self.post_phase
    }

    /// The builder's internal invariant.
    pub closed spec fn wf(&self) -> bool {
        &&& self.pre_store.wf()
        &&& self.post_store.wf()
        &&& self.next as int <= self.programs@.len()
        &&& (self.post_phase ==> (self.next as int) < self.programs@.len())
    }

    /// Begin a snapshot build: keep the base store for pre-mutation runs and
    /// derive the post-mutation store by applying every mutation the
    /// solution declares, in entry order then mutation order.
    pub fn new(base: Store, solution: &SolutionModel, programs: Vec<Vec<u8>>) -> (r: SnapshotBuild)
        requires
            base.wf(),
        ensures
            r.wf(),
            r.programs_v() == programs.deep_view(),
            r.pre_store_v() == base@,
            r.post_store_v() == apply_muts(base@, sol_muts(solution@.data)),
            r.pre_v() == Seq::<Seq<Word>>::empty(),
            r.post_v() == Seq::<Seq<Word>>::empty(),
            r.next_v() == 0,
            !r.post_phase_v(),
    {
        let mut post_store = base.duplicate();
        post_store.apply_mutations(solution);
        let r = SnapshotBuild {
            programs,
            pre_store: base,
            post_store,
            pre: Vec::new(),
            post: Vec::new(),
            next: 0,
            post_phase: false,
        };
        proof {
            assert(r.pre.deep_view() =~= Seq::<Seq<Word>>::empty());
            assert(r.post.deep_view() =~= Seq::<Seq<Word>>::empty());
        }
        r
    }

    /// The next run to perform, if the build is not finished: the program's
    /// index and whether it must run against the post-mutation store.
    pub fn next_run(&self) -> (r: Option<(usize, bool)>)
        requires
            self.wf(),
        ensures
            match r {
                Some((i, ph)) => i as nat == self.next_v() && ph == self.post_phase_v() && (
                i as int) < self.programs_v().len(),
                None => self.next_v() == self.programs_v().len() && !self.post_phase_v(),
            },
    {
        if self.next < self.programs.len() {
            Some((self.next, self.post_phase))
        } else {
            None
        }
    }

    /// The bytecode of the program at `i`.
    pub fn program(&self, i: usize) -> (r: &Vec<u8>)
        requires
            (i as int) < self.programs_v().len(),
        ensures
            r@ == self.programs_v()[i as int],
    {
        &self.programs[i]
    }

    /// The store the next run must read: the base store for a pre-mutation
    /// run, the mutated store for a post-mutation run.
    pub fn current_store(&self) -> (r: &Store)
        requires
            self.wf(),
        ensures
            r.wf(),
            r@ == (if self.post_phase_v() {
                self.post_store_v()
            } else {
                self.pre_store_v()
            }),
    {
        if self.post_phase {
            &self.post_store
        } else {
            &self.pre_store
        }
    }

    /// The pre-mutation slots collected so far.
    pub fn pre_slots(&self) -> (r: &Vec<Value>)
        ensures
            r.deep_view() == self.pre_v(),
    {
        &self.pre
    }

    /// The post-mutation slots collected so far.
    pub fn post_slots(&self) -> (r: &Vec<Value>)
        ensures
            r.deep_view() == self.post_v(),
    {
        &self.post
    }

    /// Hand back the slots one run produced: they are appended to the array
    /// of the run's generation, already-collected slots never change, and
    /// the build advances to the program's post run or to the next program.
    pub fn supply(&mut self, slots: Vec<Value>)
        requires
            old(self).wf(),
            old(self).next_v() < old(self).programs_v().len(),
        ensures
            final(self).wf(),
            final(self).programs_v() == old(self).programs_v(),
            final(self).pre_store_v() == old(self).pre_store_v(),
            final(self).post_store_v() == old(self).post_store_v(),
            !old(self).post_phase_v() ==> {
                &&& final(self).pre_v() == old(self).pre_v() + slots.deep_view()
                &&& final(self).post_v() == old(self).post_v()
                &&& final(self).next_v() == old(self).next_v()
                &&& final(self).post_phase_v()
            },
            old(self).post_phase_v() ==> {
                &&& final(self).post_v() == old(self).post_v() + slots.deep_view()
                &&& final(self).pre_v() == old(self).pre_v()
                &&& final(self).next_v() == old(self).next_v() + 1
                &&& !final(self).post_phase_v()
            },
    {
        let n = self.programs.len();
        proof {
            assert((self.next as int) < n as int);
        }
        let mut slots = slots;
        if self.post_phase {
            append_values(&mut self.post, &mut slots);
            self.next = self.next + 1;
            self.post_phase = false;
        } else {
            append_values(&mut self.pre, &mut slots);
            self.post_phase = true;
        }
    }

    /// Finish the build: the frozen slot arrays, available exactly when
    /// every program has run twice.
    pub fn finish(self) -> (r: Result<Slots, SnapshotBuild>)
        requires
            self.wf(),
        ensures
            match r {
                Ok(slots) => self.next_v() == self.programs_v().len() && slots.pre.deep_view()
                    == self.pre_v() && slots.post.deep_view() == self.post_v(),
                Err(b) => b == self && self.next_v() < self.programs_v().len(),
            },
    {
        if self.next < self.programs.len() {
            Err(self)
        } else {
            Ok(Slots { pre: self.pre, post: self.post })
        }
    }
}

/// Move all of `src` to the end of `dst`.
fn append_values(dst: &mut Vec<Value>, src: &mut Vec<Value>)
    ensures
        final(dst).deep_view() == old(dst).deep_view() + old(src).deep_view(),
{
    dst.append(src);
    proof {
        assert(dst.deep_view() =~= old(dst).deep_view() + old(src).deep_view());
    }
}

} // verus!
