//! The claim protocol: at most one active capture per identity at any
//! instant. A `ClaimStore` models the directory of exclusive claim markers,
//! one per identity. Claiming is atomic with respect to the existence check:
//! `try_claim` succeeds exactly when no claim for the identity exists, and
//! then the claim exists afterwards. The startup sweep unconditionally
//! clears every marker, which is the crash-recovery mechanism.

use vstd::prelude::*;
use crate::text::str_eq;

verus! {

/// The set of identities with an active claim marker.
pub struct ClaimStore {
    claimed: Vec<String>,
}

impl View for ClaimStore {
    type V = Seq<Seq<char>>;

    closed spec fn view(&self) -> Seq<Seq<char>> {
        self.claimed.deep_view()
    }
}

impl ClaimStore {
    /// Well-formed: no identity holds two markers.
    pub open spec fn wf(&self) -> bool {
        self@.no_duplicates()
    }

    /// An identity holds a claim.
    pub open spec fn holds(&self, id: Seq<char>) -> bool {
        self@.contains(id)
    }

    /// A store with no claims.
    pub fn new() -> (r: ClaimStore)
        ensures
            r@ =~= Seq::<Seq<char>>::empty(),
            r.wf(),
    {
        ClaimStore { claimed: Vec::new() }
    }

    /// Does `id` currently hold a claim?
    pub fn is_claimed(&self, id: &str) -> (b: bool)
        ensures
            b == self.holds(id@),
    {
        let n = self.claimed.len();
        let mut i: usize = 0;
        while i < n
            invariant
                i <= n,
                n == self.claimed.len(),
                self@ == self.claimed.deep_view(),
                forall|k: int| 0 <= k < i ==> self@[k] != id@,
            decreases n - i,
        {
            if str_eq(self.claimed[i].as_str(), id) {
                assert(self@[i as int] == id@);
                return true;
            }
            i += 1;
        }
        assert(forall|k: int| 0 <= k < self@.len() ==> self@[k] != id@);
        false
    }

    /// Claim `id` exactly when it holds no claim yet; afterwards it does.
    /// This is the atomic check-and-create the concurrency model rests on.
    pub fn try_claim(&mut self, id: &str) -> (claimed: bool)
        requires
            old(self).wf(),
        ensures
            final(self).wf(),
            claimed == !old(self).holds(id@),
            claimed ==> final(self)@ == old(self)@.push(id@),
            !claimed ==> final(self)@ == old(self)@,
            final(self).holds(id@),
    {
        if self.is_claimed(id) {
            return false;
        }
        let owned: String = id.to_owned();
        self.claimed.push(owned);
        proof {
            assert(self@ =~= old(self)@.push(id@));
            assert(self@[self@.len() - 1] == id@);
        }
        true
    }

    /// Release the claim of `id`: afterwards `id` holds no claim, every
    /// other identity's claim is untouched, and a held claim is removed
    /// exactly once.
    pub fn release(&mut self, id: &str)
        requires
            old(self).wf(),
        ensures
            final(self).wf(),
            !final(self).holds(id@),
            forall|x: Seq<char>| x != id@ ==> final(self).holds(x) == old(self).holds(x),
            old(self).holds(id@) ==> exists|idx: int|
                0 <= idx < old(self)@.len() && old(self)@[idx] == id@ && final(self)@ == old(
                    self,
                )@.remove(idx),
            old(self).holds(id@) ==> final(self)@.len() == old(self)@.len() - 1,
            !old(self).holds(id@) ==> final(self)@ == old(self)@,
    {
        let n = self.claimed.len();
        let mut i: usize = 0;
        while i < n
            invariant
                i <= n,
                n == self.claimed.len(),
                self@ == self.claimed.deep_view(),
                self.wf(),
                self@ == old(self)@,
                forall|k: int| 0 <= k < i ==> self@[k] != id@,
            decreases n - i,
        {
            if str_eq(self.claimed[i].as_str(), id) {
                assert(self@[i as int] == id@);
                self.claimed.remove(i);
                proof {
                    assert(self@ =~= old(self)@.remove(i as int));
                    assert forall|x: Seq<char>| x != id@ implies self.holds(x) == old(
                        self,
                    ).holds(x) by {
                        if old(self).holds(x) {
                            let j = choose|j: int| 0 <= j < old(self)@.len() && old(self)@[j] == x;
                            if j < i {
                                assert(self@[j] == x);
                            } else {
                                assert(self@[j - 1] == x);
                            }
                        }
                        if self.holds(x) {
                            let j = choose|j: int| 0 <= j < self@.len() && self@[j] == x;
                            if j < i {
                                assert(old(self)@[j] == x);
                            } else {
                                assert(old(self)@[j + 1] == x);
                            }
                        }
                    }
                    assert forall|k: int| 0 <= k < self@.len() implies self@[k] != id@ by {
                        if k < i {
                            assert(old(self)@[k] != id@);
                        } else {
                            assert(self@[k] == old(self)@[k + 1]);
                            assert(old(self)@[k + 1] != old(self)@[i as int]);
                        }
                    }
                }
                return ;
            }
            i += 1;
        }
        assert(forall|k: int| 0 <= k < self@.len() ==> self@[k] != id@);
    }

    /// The startup sweep: unconditionally clear every claim marker,
    /// however many existed before.
    pub fn sweep(&mut self)
        ensures
            final(self)@ =~= Seq::<Seq<char>>::empty(),
            final(self).wf(),
            forall|x: Seq<char>| !final(self).holds(x),
    {
        self.claimed.clear();
    }

    /// How many claims are active.
    pub fn active_count(&self) -> (n: usize)
        ensures
            n == self@.len(),
    {
        self.claimed.len()
    }
}

/// For any identity, at most one claim exists at any instant: in a
/// well-formed store an identity's marker is counted at most once.
pub proof fn lemma_at_most_one_claim(s: &ClaimStore, id: Seq<char>)
    requires
        s.wf(),
    ensures
        s@.to_multiset().count(id) <= 1,
{
    s@.lemma_multiset_has_no_duplicates();
    if s@.to_multiset().count(id) > 1 {
        assert(s@.to_multiset().contains(id));
    }
}

} // verus!
