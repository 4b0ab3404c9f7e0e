//! The authority registry: a bounded, root-administered allow-list of the
//! principals permitted to submit sensor-data batches.

use vstd::prelude::*;

use crate::types::AccountId;
use crate::types::Error;
use crate::types::Event;
use crate::types::Origin;

verus! {

/// The capacity a host configures when it has no reason to pick another.
pub const DEFAULT_MAX_AUTHORITIES: usize = 64;

/// Removal model shared by `AuthorityRegistry::remove_authority` and its law:
/// the first occurrence of `p` is overwritten with the last element and the
/// sequence shortened by one (order carries no meaning); a sequence without
/// `p` is left as it is.
pub open spec fn swap_remove_first(s: Seq<AccountId>, p: AccountId) -> Seq<AccountId> {
    match s.index_of_first(p) {
        Some(i) => s.update(i, s.last()).drop_last(),
        None => s,
    }
}

/// The allow-list of principals permitted to submit sensor data.
///
/// Created empty at genesis with a fixed capacity; mutated only through
/// `add_authority` and `remove_authority`, both of which demand root
/// privilege. Holds no duplicates and never grows past its capacity.
pub struct AuthorityRegistry {
    authorities: Vec<AccountId>,
    max_authorities: usize,
}

impl View for AuthorityRegistry {
    type V = Seq<AccountId>;

    closed spec fn view(&self) -> Seq<AccountId> {
        self.authorities@
    }
}

impl AuthorityRegistry {
    /// The configured capacity.
    pub closed spec fn spec_max(&self) -> int {
        self.max_authorities as int
    }

    #[verifier::type_invariant]
    spec fn wf(&self) -> bool {
        &&& self.authorities@.len() <= self.max_authorities
        &&& forall|i: int, j: int|
            0 <= i < j < self.authorities@.len() ==> self.authorities@[i]
                != self.authorities@[j]
    }

    /// An empty registry with room for at most `max_authorities` principals.
    pub fn new(max_authorities: usize) -> (r: AuthorityRegistry)
        ensures
            r@ == Seq::<AccountId>::empty(),
            r.spec_max() == max_authorities as int,
    {
        AuthorityRegistry { authorities: Vec::new(), max_authorities }
    }

    /// The configured capacity.
    ///
    /// Law: capacity bound. Every reachable registry value holds at most its
    /// configured maximum number of authorities.
    pub fn max_authorities(&self) -> (r: usize)
        ensures
            r as int == self.spec_max(),
            self@.len() <= self.spec_max(),
    {
        proof {
            use_type_invariant(self);
        }
        self.max_authorities
    }

    /// The registered authorities, in insertion order, never more than the
    /// configured capacity.
    pub fn authorities(&self) -> (r: &Vec<AccountId>)
        ensures
            r@ == self@,
            self@.len() <= self.spec_max(),
    {
        proof {
            use_type_invariant(self);
        }
        &self.authorities
    }

    /// Pure membership test: is `who` permitted to submit sensor data?
    pub fn is_authority(&self, who: &AccountId) -> (r: bool)
        ensures
            r == self@.contains(*who),
    {
        let mut i: usize = 0;
        while i < self.authorities.len()
            invariant
                i <= self.authorities@.len(),
                forall|k: int| 0 <= k < i ==> self.authorities@[k] != *who,
            decreases self.authorities@.len() - i,
        {
            if self.authorities[i] == *who {
                assert(self@[i as int] == *who);
                return true;
            }
            i += 1;
        }
        false
    }

    /// Appends `authority` to the allow-list and reports the
    /// `AuthorityAdded` notification.
    ///
    /// Demands root privilege; refuses a principal already present and any
    /// add beyond the configured capacity. On every failure the registry is
    /// left unchanged.
    pub fn add_authority(&mut self, origin: Origin, authority: AccountId) -> (r: Result<
        Event,
        Error,
    >)
        ensures
            final(self).spec_max() == old(self).spec_max(),
            origin != Origin::Root ==> r == Err::<Event, Error>(Error::NotAuthorized)
                && final(self)@ == old(self)@,
            origin == Origin::Root && old(self)@.contains(authority)
                ==> r == Err::<Event, Error>(Error::AlreadyAuthority)
                && final(self)@ == old(self)@,
            origin == Origin::Root && !old(self)@.contains(authority)
                && old(self)@.len() >= old(self).spec_max()
                ==> r == Err::<Event, Error>(Error::CapacityExceeded)
                && final(self)@ == old(self)@,
            origin == Origin::Root && !old(self)@.contains(authority)
                && old(self)@.len() < old(self).spec_max()
                ==> r == Ok::<Event, Error>((Event::AuthorityAdded { authority }))
                && final(self)@ == old(self)@.push(authority)
                && (forall|q: AccountId|
                    final(self)@.contains(q) <==> (old(self)@.contains(q) || q == authority)),
    {
        proof {
            use_type_invariant(&*self);
        }
        if origin != Origin::Root {
            return Err(Error::NotAuthorized);
        }
        if self.is_authority(&authority) {
            return Err(Error::AlreadyAuthority);
        }
        if self.authorities.len() >= self.max_authorities {
            return Err(Error::CapacityExceeded);
        }
        let mut grown: Vec<AccountId> = Vec::new();
        core::mem::swap(&mut grown, &mut self.authorities);
        grown.push(authority);
        assert forall|i: int, j: int|
            0 <= i < j < grown@.len() implies grown@[i] != grown@[j] by {
            if j == grown@.len() - 1 {
                assert(!old(self)@.contains(authority));
                assert(old(self)@[i] != authority);
            }
        }
        proof {
            assert forall|q: AccountId|
                grown@.contains(q) <==> (old(self)@.contains(q) || q == authority) by {
                if grown@.contains(q) {
                    let w = choose|w: int| 0 <= w < grown@.len() && grown@[w] == q;
                    if w < grown@.len() - 1 {
                        assert(old(self)@[w] == q);
                    }
                }
                if old(self)@.contains(q) {
                    let w = choose|w: int| 0 <= w < old(self)@.len() && old(self)@[w] == q;
                    assert(grown@[w] == q);
                }
                if q == authority {
                    assert(grown@[grown@.len() - 1] == q);
                }
            }
        }
        core::mem::swap(&mut grown, &mut self.authorities);
        Ok(Event::AuthorityAdded { authority })
    }

    /// Removes `authority` from the allow-list by swapping it with the last
    /// entry (authority order has no semantic meaning) and reports the
    /// `AuthorityRemoved` notification.
    ///
    /// Demands root privilege; refuses a principal that is absent. On every
    /// failure the registry is left unchanged.
    pub fn remove_authority(&mut self, origin: Origin, authority: AccountId) -> (r: Result<
        Event,
        Error,
    >)
        ensures
            final(self).spec_max() == old(self).spec_max(),
            origin != Origin::Root ==> r == Err::<Event, Error>(Error::NotAuthorized)
                && final(self)@ == old(self)@,
            origin == Origin::Root && !old(self)@.contains(authority)
                ==> r == Err::<Event, Error>(Error::NotAuthority)
                && final(self)@ == old(self)@,
            origin == Origin::Root && old(self)@.contains(authority) ==> {
                &&& r == Ok::<Event, Error>((Event::AuthorityRemoved { authority }))
                &&& final(self)@ == swap_remove_first(old(self)@, authority)
                &&& final(self)@.len() == old(self)@.len() - 1
                &&& forall|q: AccountId|
                    final(self)@.contains(q) <==> (old(self)@.contains(q) && q != authority)
            },
    {
        proof {
            use_type_invariant(&*self);
        }
        if origin != Origin::Root {
            return Err(Error::NotAuthorized);
        }
        let ghost s0: Seq<AccountId> = self.authorities@;
        let mut i: usize = 0;
        while i < self.authorities.len()
            invariant
                i <= self.authorities@.len(),
                origin == Origin::Root,
                s0 == old(self)@,
                self.authorities@ == s0,
                self.spec_max() == old(self).spec_max(),
                self.wf(),
                forall|k: int| 0 <= k < i ==> self.authorities@[k] != authority,
            decreases self.authorities@.len() - i,
        {
            if self.authorities[i] == authority {
                proof {
                    s0.index_of_first_ensures(authority);
                    assert(s0[i as int] == authority);
                    assert(s0.index_of_first(authority) == Some(i as int));
                }
                let mut shrunk: Vec<AccountId> = Vec::new();
                core::mem::swap(&mut shrunk, &mut self.authorities);
                shrunk.swap_remove(i);
                proof {
                    lemma_swap_remove_unique(s0, authority, i as int);
                }
                core::mem::swap(&mut shrunk, &mut self.authorities);
                return Ok(Event::AuthorityRemoved { authority });
            }
            i += 1;
        }
        assert(!s0.contains(authority));
        Err(Error::NotAuthority)
    }
}

/// After removing the only occurrence of `p` from a duplicate-free sequence,
/// `p` is gone and every other element is kept.
proof fn lemma_swap_remove_unique(s: Seq<AccountId>, p: AccountId, i: int)
    requires
        0 <= i < s.len(),
        s[i] == p,
        s.index_of_first(p) == Some(i),
        forall|a: int, b: int| 0 <= a < b < s.len() ==> s[a] != s[b],
    ensures
        s.update(i, s.last()).drop_last() == swap_remove_first(s, p),
        s.update(i, s.last()).drop_last().len() == s.len() - 1,
        forall|q: AccountId|
            s.update(i, s.last()).drop_last().contains(q) <==> (s.contains(q) && q != p),
        forall|a: int, b: int|
            0 <= a < b < s.update(i, s.last()).drop_last().len() ==> s.update(
                i,
                s.last(),
            ).drop_last()[a] != s.update(i, s.last()).drop_last()[b],
{
    let t = s.update(i, s.last()).drop_last();
    assert forall|q: AccountId| t.contains(q) implies (s.contains(q) && q != p) by {
        let w = choose|w: int| 0 <= w < t.len() && t[w] == q;
        if w == i {
            assert(s[s.len() - 1] == q);
        } else {
            assert(s[w] == q);
        }
        if q == p {
            if w == i {
                assert(s[s.len() - 1] == p);
                if i < s.len() - 1 {
                    assert(s[i] == s[s.len() - 1]);
                }
            } else {
                assert(s[w] == p && s[i] == p && w != i);
            }
        }
    }
    assert forall|q: AccountId| s.contains(q) && q != p implies t.contains(q) by {
        let w = choose|w: int| 0 <= w < s.len() && s[w] == q;
        if w < s.len() - 1 {
            if w == i {
                assert(s[i] == p);
            } else {
                assert(t[w] == q);
            }
        } else {
            if i < s.len() - 1 {
                assert(t[i] == s[s.len() - 1]);
            } else {
                assert(s[i] == p);
            }
        }
    }
    assert forall|a: int, b: int| 0 <= a < b < t.len() implies t[a] != t[b] by {
        if a == i {
            assert(t[a] == s[s.len() - 1] && t[b] == s[b]);
        } else if b == i {
            assert(t[b] == s[s.len() - 1] && t[a] == s[a]);
        } else {
            assert(t[a] == s[a] && t[b] == s[b]);
        }
    }
}

/// Law: grant then revoke. For a principal `p` not in the registry, adding it
/// makes it an authority, and removing it afterwards makes it a non-authority
/// again — stated over the models that `add_authority`, `is_authority` and
/// `remove_authority` promise in their contracts.
pub proof fn lemma_authority_grant_revoke(authorities: Seq<AccountId>, p: AccountId)
    requires
        !authorities.contains(p),
    ensures
        authorities.push(p).contains(p),
        !swap_remove_first(authorities.push(p), p).contains(p),
{
    let s = authorities.push(p);
    assert(s[s.len() - 1] == p);
    s.index_of_first_ensures(p);
    assert forall|k: int| 0 <= k < authorities.len() implies s[k] != p by {
        assert(s[k] == authorities[k]);
        if authorities[k] == p {
            assert(authorities.contains(p));
        }
    }
    assert(s.index_of_first(p) == Some(s.len() - 1));
    assert(s.update(s.len() - 1, s.last()) =~= s);
    assert(s.drop_last() =~= authorities);
    assert forall|k: int| 0 <= k < authorities.len() implies authorities[k] != p by {
        if authorities[k] == p {
            assert(authorities.contains(p));
        }
    }
}

} // verus!
