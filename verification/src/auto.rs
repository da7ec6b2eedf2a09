//! Input-history tracking for an interactive prompt: an append-only,
//! insertion-ordered collection of entered commands with duplicate
//! suppression, and prefix-matching suggestions, most recent first.

use vstd::prelude::*;
use vstd::string::StringExecFns;

verus! {

/// The character sequences a list of strings holds.
pub open spec fn strs_views(h: Seq<String>) -> Seq<Seq<char>> {
    Seq::new(h.len(), |i: int| h[i]@)
}

/// Whether the list holds the given text.
pub open spec fn holds_str(h: Seq<Seq<char>>, s: Seq<char>) -> bool {
    exists|i: int| 0 <= i < h.len() && h[i] == s
}

/// The history entries that begin with the prefix, most recent first.
pub open spec fn suggestions_spec(h: Seq<Seq<char>>, p: Seq<char>) -> Seq<Seq<char>>
    decreases h.len(),
{
    if h.len() == 0 {
        Seq::empty()
    } else {
        (if h.last().len() >= p.len() && h.last().subrange(0, p.len() as int) == p {
            seq![h.last()]
        } else {
            Seq::empty()
        }) + suggestions_spec(h.drop_last(), p)
    }
}

/// Command history with duplicate suppression.
pub struct Auto {
    history: Vec<String>,
}

impl Auto {
    /// The recorded entries, oldest first.
    pub closed spec fn history_v(&self) -> Seq<Seq<char>> {
        strs_views(self.history@)
    }

    /// An empty history.
    pub fn new() -> (r: Auto)
        ensures
            r.history_v() == Seq::<Seq<char>>::empty(),
    {
        let r = Auto { history: Vec::new() };
        proof {
            assert(r.history_v() =~= Seq::<Seq<char>>::empty());
        }
        r
    }

    /// Record an entered command: appended once, never twice.
    #[verifier::loop_isolation(false)]
    pub fn update_history(&mut self, input: &str)
        ensures
            holds_str(old(self).history_v(), input@) ==> final(self).history_v() == old(
                self,
            ).history_v(),
            !holds_str(old(self).history_v(), input@) ==> final(self).history_v() == old(
                self,
            ).history_v().push(input@),
    {
        let mut i: usize = 0;
        while i < self.history.len()
            invariant
                0 <= i <= self.history@.len(),
                forall|j: int| 0 <= j < i ==> self.history@[j]@ != input@,
            decreases self.history@.len() - i,
        {
            if str_eq_here(self.history[i].as_str(), input) {
                proof {
                    assert(self.history_v()[i as int] == input@);
                }
                return ;
            }
            i += 1;
        }
        let ghost h0 = self.history_v();
        self.history.push(String::from_str(input));
        proof {
            assert(self.history_v() =~= h0.push(input@));
            if holds_str(h0, input@) {
                let w = choose|j: int| 0 <= j < h0.len() && h0[j] == input@;
                assert(false);
            }
        }
    }

    /// The entries that begin with `input`, most recent first.
    #[verifier::loop_isolation(false)]
    pub fn suggestions(&self, input: &str) -> (r: Vec<String>)
        ensures
            strs_views(r@) == suggestions_spec(self.history_v(), input@),
    {
        let ghost h = self.history_v();
        let mut r: Vec<String> = Vec::new();
        let mut i: usize = self.history.len();
        proof {
            assert(h.take(h.len() as int) =~= h);
            assert(strs_views(r@) + suggestions_spec(h.take(h.len() as int), input@)
                =~= suggestions_spec(h, input@));
        }
        while i > 0
            invariant
                0 <= i <= self.history@.len(),
                h == self.history_v(),
                strs_views(r@) + suggestions_spec(h.take(i as int), input@) == suggestions_spec(
                    h,
                    input@,
                ),
            decreases i,
        {
            proof {
                assert(h.take(i as int).last() == h[i - 1]);
                assert(h.take(i as int).drop_last() =~= h.take(i - 1));
            }
            if str_starts_with(self.history[i - 1].as_str(), input) {
                let ghost r0 = strs_views(r@);
                let entry = clone_string_here(&self.history[i - 1]);
                self.push_tracked(&mut r, entry);
                proof {
                    assert(strs_views(r@) =~= r0.push(h[i - 1]));
                    assert(strs_views(r@) + suggestions_spec(h.take(i - 1), input@)
                        =~= suggestions_spec(h, input@));
                }
            }
            i -= 1;
        }
        proof {
            assert(h.take(0) =~= Seq::<Seq<char>>::empty());
            assert(strs_views(r@) + Seq::<Seq<char>>::empty() =~= strs_views(r@));
        }
        r
    }

    /// Push a string, tracking the views.
    fn push_tracked(&self, r: &mut Vec<String>, s: String)
        ensures
            final(r)@ == old(r)@.push(s),
    {
        r.push(s);
    }
}

/// Whether two strings hold the same characters.
fn str_eq_here(a: &str, b: &str) -> (r: bool)
    ensures
        r == (a@ == b@),
{
    let na = a.unicode_len();
    let nb = b.unicode_len();
    if na != nb {
        return false;
    }
    let mut i: usize = 0;
    while i < na
        invariant
            0 <= i <= na,
            na == a@.len(),
            na == b@.len(),
            forall|j: int| 0 <= j < i ==> a@[j] == b@[j],
        decreases na - i,
    {
        if a.get_char(i) != b.get_char(i) {
            return false;
        }
        i += 1;
    }
    assert(a@ =~= b@);
    true
}

/// Whether `a` begins with `p`.
fn str_starts_with(a: &str, p: &str) -> (r: bool)
    ensures
        r == (a@.len() >= p@.len() && a@.subrange(0, p@.len() as int) == p@),
{
    let na = a.unicode_len();
    let np = p.unicode_len();
    if na < np {
        return false;
    }
    let mut i: usize = 0;
    while i < np
        invariant
            0 <= i <= np,
            na == a@.len(),
            np == p@.len(),
            np <= na,
            forall|j: int| 0 <= j < i ==> a@[j] == p@[j],
        decreases np - i,
    {
        if a.get_char(i) != p.get_char(i) {
            proof {
                assert(a@.subrange(0, p@.len() as int)[i as int] != p@[i as int]);
            }
            return false;
        }
        i += 1;
    }
    assert(a@.subrange(0, p@.len() as int) =~= p@);
    true
}

/// Clone a string; the clone holds the same characters.
fn clone_string_here(s: &String) -> (r: String)
    ensures
        r@ == s@,
{
    s.clone()
}

} // verus!
