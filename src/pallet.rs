use vstd::prelude::*;

use crate::dna::{blake2_256_of, derive_dna, dna_payload};
use crate::types::{AccountId, Balance, Dna, Error, Event, ExecutionContext, Kitty, LedgerError};

verus! {

/// The kitties that one account owns, in the order they came to it.
pub struct OwnedKitties {
    pub(crate) owner: AccountId,
    pub(crate) dnas: Vec<Dna>,
}

/// The registry's whole state: the kitty records, the per-owner lists of
/// identifiers, the number of kitties and the emitted events.
pub struct Pallet {
    pub(crate) kitties: Vec<Kitty>,
    pub(crate) owned: Vec<OwnedKitties>,
    pub(crate) count: u32,
    pub(crate) max_owned: usize,
    pub(crate) events: Vec<Event>,
    /// The records by identifier.
    pub(crate) registry: Ghost<Map<Dna, Kitty>>,
    /// The identifier lists by owner; an account with no entry owns nothing.
    pub(crate) index: Ghost<Map<AccountId, Seq<Dna>>>,
}

/// Compares two identifiers byte by byte.
fn dna_eq(a: &Dna, b: &Dna) -> (r: bool)
    ensures
        r == (*a == *b),
{
    let mut i: usize = 0;
    while i < 32
        invariant
            0 <= i <= 32,
            forall|k: int| 0 <= k < i ==> a@[k] == b@[k],
        decreases 32 - i,
    {
        if a[i] != b[i] {
            return false;
        }
        i += 1;
    }
    assert(*a =~= *b);
    true
}

/// The first position of `dna` in `v`, if any.
fn position_of(v: &Vec<Dna>, dna: &Dna) -> (r: Option<usize>)
    ensures
        r matches Some(i) ==> i < v@.len() && v@[i as int] == *dna,
        r is None ==> !v@.contains(*dna),
{
    let mut i: usize = 0;
    while i < v.len()
        invariant
            0 <= i <= v@.len(),
            forall|k: int| 0 <= k < i ==> v@[k] != *dna,
        decreases v@.len() - i,
    {
        if dna_eq(&v[i], dna) {
            return Some(i);
        }
        i += 1;
    }
    None
}

impl Pallet {
    /// The kitty records, by identifier.
    pub open(crate) spec fn registry(&self) -> Map<Dna, Kitty> {
        self.registry@
    }

    /// The identifiers that `a` owns, in order.
    pub open(crate) spec fn owned_of(&self, a: AccountId) -> Seq<Dna> {
        if self.index@.contains_key(a) {
            self.index@[a]
        } else {
            Seq::empty()
        }
    }

    /// Every (owner, identifier) pair that some ownership list holds.
    pub open spec fn memberships(&self) -> Set<(AccountId, Dna)> {
        Set::new(|m: (AccountId, Dna)| self.owned_of(m.0).contains(m.1))
    }

    /// The number of kitties minted.
    pub open(crate) spec fn count_spec(&self) -> u32 {
        self.count
    }

    /// How many kitties one account may own.
    pub open(crate) spec fn capacity(&self) -> nat {
        self.max_owned as nat
    }

    /// The events emitted so far, oldest first.
    pub open(crate) spec fn event_log(&self) -> Seq<Event> {
        self.events@
    }

    /// The store's invariant: the executable vectors agree with the model,
    /// the counter counts the records, and every record stands, exactly once,
    /// in the list of its owner and in no other list.
    pub open(crate) spec fn wf(&self) -> bool {
        &&& self.registry@.dom().finite()
        &&& self.count as nat == self.registry@.dom().len()
        &&& forall|d: Dna| #[trigger]
            self.registry@.contains_key(d) ==> self.registry@[d].dna == d
        &&& forall|i: int|
            0 <= i < self.kitties@.len() ==> #[trigger] self.registry@.contains_key(
                self.kitties@[i].dna,
            ) && self.registry@[self.kitties@[i].dna] == self.kitties@[i]
        &&& forall|d: Dna| #[trigger]
            self.registry@.contains_key(d) ==> exists|i: int|
                0 <= i < self.kitties@.len() && #[trigger] self.kitties@[i].dna == d
        &&& forall|i: int, j: int|
            0 <= i < self.kitties@.len() && 0 <= j < self.kitties@.len()
                && #[trigger] self.kitties@[i].dna == #[trigger] self.kitties@[j].dna ==> i == j
        &&& forall|i: int|
            0 <= i < self.owned@.len() ==> #[trigger] self.index@.contains_key(
                self.owned@[i].owner,
            ) && self.index@[self.owned@[i].owner] == self.owned@[i].dnas@
        &&& forall|a: AccountId| #[trigger]
            self.index@.contains_key(a) ==> exists|i: int|
                0 <= i < self.owned@.len() && #[trigger] self.owned@[i].owner == a
        &&& forall|i: int, j: int|
            0 <= i < self.owned@.len() && 0 <= j < self.owned@.len()
                && #[trigger] self.owned@[i].owner == #[trigger] self.owned@[j].owner ==> i == j
        &&& forall|a: AccountId| #[trigger] self.owned_of(a).len() <= self.max_owned
        &&& forall|a: AccountId| #[trigger] self.owned_of(a).no_duplicates()
        &&& forall|a: AccountId, k: int|
            0 <= k < self.owned_of(a).len() ==> self.registry@.contains_key(
                #[trigger] self.owned_of(a)[k],
            ) && self.registry@[self.owned_of(a)[k]].owner == a
        &&& forall|d: Dna| #[trigger]
            self.registry@.contains_key(d) ==> self.owned_of(self.registry@[d].owner).contains(d)
    }

    /// An empty registry whose accounts may each own up to `max_owned` kitties.
    pub fn new(max_owned: usize) -> (r: Pallet)
        ensures
            r.wf(),
            r.registry() == Map::<Dna, Kitty>::empty(),
            forall|a: AccountId| #[trigger] r.owned_of(a) == Seq::<Dna>::empty(),
            r.count_spec() == 0,
            r.capacity() == max_owned,
            r.event_log() == Seq::<Event>::empty(),
    {
        Pallet {
            kitties: Vec::new(),
            owned: Vec::new(),
            count: 0,
            max_owned,
            events: Vec::new(),
            registry: Ghost(Map::empty()),
            index: Ghost(Map::empty()),
        }
    }
}

impl Pallet {
    /// Where the record of `dna` stands in the executable registry, if any.
    fn find_kitty(&self, dna: &Dna) -> (r: Option<usize>)
        requires
            self.wf(),
        ensures
            r matches Some(i) ==> i < self.kitties@.len() && self.kitties@[i as int].dna == *dna
                && self.registry().contains_key(*dna),
            r is None ==> !self.registry().contains_key(*dna),
    {
        let mut i: usize = 0;
        while i < self.kitties.len()
            invariant
                self.wf(),
                0 <= i <= self.kitties@.len(),
                forall|k: int| 0 <= k < i ==> self.kitties@[k].dna != *dna,
            decreases self.kitties@.len() - i,
        {
            if dna_eq(&self.kitties[i].dna, dna) {
                assert(self.registry@.contains_key(self.kitties@[i as int].dna));
                return Some(i);
            }
            i += 1;
        }
        None
    }

    /// Where the list of `a` stands in the executable index, if any.
    fn find_owner(&self, a: AccountId) -> (r: Option<usize>)
        requires
            self.wf(),
        ensures
            r matches Some(i) ==> i < self.owned@.len() && self.owned@[i as int].owner == a
                && self.index@.contains_key(a) && self.owned_of(a) == self.owned@[i as int].dnas@,
            r is None ==> !self.index@.contains_key(a) && self.owned_of(a) == Seq::<Dna>::empty(),
    {
        let mut i: usize = 0;
        while i < self.owned.len()
            invariant
                self.wf(),
                0 <= i <= self.owned@.len(),
                forall|k: int| 0 <= k < i ==> self.owned@[k].owner != a,
            decreases self.owned@.len() - i,
        {
            if self.owned[i].owner == a {
                assert(self.index@.contains_key(self.owned@[i as int].owner));
                return Some(i);
            }
            i += 1;
        }
        None
    }
}

impl Pallet {
    /// Why minting `dna` for `owner` would be refused, checked in this order:
    /// the identifier is taken, the counter is full, the owner's list is full.
    pub open spec fn mint_error(&self, owner: AccountId, dna: Dna) -> Option<Error> {
        if self.registry().contains_key(dna) {
            Some(Error::DuplicateAsset)
        } else if self.count_spec() == u32::MAX {
            Some(Error::TooManyAssets)
        } else if self.owned_of(owner).len() >= self.capacity() {
            Some(Error::TooManyOwned)
        } else {
            None
        }
    }

    /// Creates the kitty `dna`, owned by `owner` and not for sale, and appends
    /// it to the owner's list; refused without any change where `mint_error`
    /// names a reason.
    pub fn mint(&mut self, owner: AccountId, dna: Dna) -> (r: Result<(), Error>)
        requires
            old(self).wf(),
        ensures
            final(self).wf(),
            match old(self).mint_error(owner, dna) {
                Some(e) => r == Err::<(), Error>(e) && *final(self) == *old(self),
                None => r is Ok,
            },
            r is Ok ==> {
                &&& final(self).registry() == old(self).registry().insert(
                    dna,
                    (Kitty { dna, owner, price: None }),
                )
                &&& final(self).count_spec() == old(self).count_spec() + 1
                &&& final(self).owned_of(owner) == old(self).owned_of(owner).push(dna)
                &&& forall|a: AccountId|
                    a != owner ==> #[trigger] final(self).owned_of(a) == old(self).owned_of(a)
                &&& final(self).capacity() == old(self).capacity()
                &&& final(self).event_log() == old(self).event_log().push(
                    Event::Created { owner },
                )
            },
    {
        let ghost pre = *self;
        if self.find_kitty(&dna).is_some() {
            return Err(Error::DuplicateAsset);
        }
        let new_count = match self.count.checked_add(1) {
            Some(c) => c,
            None => {
                return Err(Error::TooManyAssets);
            },
        };
        let ghost old_list = self.owned_of(owner);
        match self.find_owner(owner) {
            Some(i) => {
                if self.owned[i].dnas.len() >= self.max_owned {
                    return Err(Error::TooManyOwned);
                }
                self.owned[i].dnas.push(dna);
            },
            None => {
                if self.max_owned == 0 {
                    return Err(Error::TooManyOwned);
                }
                let mut dnas: Vec<Dna> = Vec::new();
                dnas.push(dna);
                self.owned.push(OwnedKitties { owner, dnas });
            },
        }
        let kitty = Kitty { dna, owner, price: None };
        self.kitties.push(kitty);
        self.count = new_count;
        self.registry = Ghost(self.registry@.insert(dna, kitty));
        self.index = Ghost(self.index@.insert(owner, old_list.push(dna)));
        self.events.push(Event::Created { owner });
        proof {
            assert(!old_list.contains(dna));
            assert(self.owned_of(owner) == old_list.push(dna));
            assert forall|a: AccountId| a != owner implies #[trigger] self.owned_of(a)
                == pre.owned_of(a) by {}
            assert(self.registry@.dom() == pre.registry@.dom().insert(dna));
            assert forall|i: int| 0 <= i < self.kitties@.len() implies #[trigger]
                self.registry@.contains_key(self.kitties@[i].dna) && self.registry@[self.kitties@[i].dna]
                == self.kitties@[i] by {
                if i < pre.kitties@.len() {
                    assert(pre.registry@.contains_key(pre.kitties@[i].dna));
                }
            }
            assert forall|d: Dna| #[trigger] self.registry@.contains_key(d) implies exists|i: int|
                0 <= i < self.kitties@.len() && #[trigger] self.kitties@[i].dna == d by {
                if d == dna {
                    assert(self.kitties@[pre.kitties@.len() as int].dna == d);
                } else {
                    let i = choose|i: int| 0 <= i < pre.kitties@.len() && #[trigger] pre.kitties@[i].dna == d;
                    assert(self.kitties@[i].dna == d);
                }
            }
            assert forall|i: int, j: int|
                0 <= i < self.kitties@.len() && 0 <= j < self.kitties@.len()
                    && #[trigger] self.kitties@[i].dna == #[trigger] self.kitties@[j].dna implies i == j by {
                if i < pre.kitties@.len() {
                    assert(pre.registry@.contains_key(pre.kitties@[i].dna));
                }
                if j < pre.kitties@.len() {
                    assert(pre.registry@.contains_key(pre.kitties@[j].dna));
                }
            }
            assert forall|i: int| 0 <= i < self.owned@.len() implies #[trigger] self.index@.contains_key(
                self.owned@[i].owner) && self.index@[self.owned@[i].owner] == self.owned@[i].dnas@ by {
                if i < pre.owned@.len() {
                    assert(pre.index@.contains_key(pre.owned@[i].owner));
                }
            }
            assert forall|a: AccountId| #[trigger] self.index@.contains_key(a) implies exists|i: int|
                0 <= i < self.owned@.len() && #[trigger] self.owned@[i].owner == a by {
                if a == owner {
                    if !pre.index@.contains_key(owner) {
                        assert(self.owned@[pre.owned@.len() as int].owner == a);
                    } else {
                        let i = choose|i: int| 0 <= i < pre.owned@.len() && #[trigger] pre.owned@[i].owner == a;
                        assert(self.owned@[i].owner == a);
                    }
                } else {
                    let i = choose|i: int| 0 <= i < pre.owned@.len() && #[trigger] pre.owned@[i].owner == a;
                    assert(self.owned@[i].owner == a);
                }
            }
            assert forall|i: int, j: int|
                0 <= i < self.owned@.len() && 0 <= j < self.owned@.len()
                    && #[trigger] self.owned@[i].owner == #[trigger] self.owned@[j].owner implies i == j by {
                if i < pre.owned@.len() {
                    assert(pre.index@.contains_key(pre.owned@[i].owner));
                }
                if j < pre.owned@.len() {
                    assert(pre.index@.contains_key(pre.owned@[j].owner));
                }
            }
            assert forall|a: AccountId| #[trigger] self.owned_of(a).len() <= self.max_owned by {
                assert(pre.owned_of(a).len() <= pre.max_owned);
            }
            assert forall|a: AccountId| #[trigger] self.owned_of(a).no_duplicates() by {
                assert(pre.owned_of(a).no_duplicates());
            }
            assert forall|a: AccountId, k: int|
                0 <= k < self.owned_of(a).len() implies self.registry@.contains_key(
                    #[trigger] self.owned_of(a)[k]) && self.registry@[self.owned_of(a)[k]].owner == a by {
                if a != owner || k < old_list.len() {
                    assert(pre.owned_of(a)[k] == self.owned_of(a)[k]);
                    assert(pre.registry@.contains_key(pre.owned_of(a)[k]));
                }
            }
            assert forall|d: Dna| #[trigger] self.registry@.contains_key(d) implies self.owned_of(
                self.registry@[d].owner).contains(d) by {
                if d != dna {
                    assert(pre.registry@.contains_key(d));
                    let o = pre.registry@[d].owner;
                    assert(pre.owned_of(o).contains(d));
                    if o == owner {
                        let k = choose|k: int| 0 <= k < old_list.len() && old_list[k] == d;
                        assert(self.owned_of(o)[k] == d);
                    }
                } else {
                    assert(self.owned_of(owner)[old_list.len() as int] == dna);
                }
            }
        }
        Ok(())
    }
}

/// `s` with its element at `k` replaced by its last element, and the last
/// element then dropped: a removal that does not keep the order.
pub open spec fn swap_removed(s: Seq<Dna>, k: int) -> Seq<Dna> {
    s.update(k, s.last()).drop_last()
}

/// A removal by swap from a list without repeats keeps it without repeats and
/// takes out exactly the element removed.
proof fn lemma_swap_removed(s: Seq<Dna>, k: int)
    requires
        0 <= k < s.len(),
        s.no_duplicates(),
    ensures
        swap_removed(s, k).len() == s.len() - 1,
        swap_removed(s, k).no_duplicates(),
        forall|x: Dna| #[trigger]
            swap_removed(s, k).contains(x) <==> (s.contains(x) && x != s[k]),
{
    let r = swap_removed(s, k);
    let n = s.len() - 1;
    assert forall|i: int, j: int| 0 <= i < r.len() && 0 <= j < r.len() && i != j implies r[i]
        != r[j] by {
        let si = if i == k { n } else { i };
        let sj = if j == k { n } else { j };
        assert(r[i] == s[si] && r[j] == s[sj]);
    }
    assert forall|x: Dna| #[trigger] r.contains(x) <==> (s.contains(x) && x != s[k]) by {
        if r.contains(x) {
            let i = choose|i: int| 0 <= i < r.len() && r[i] == x;
            let si = if i == k { n } else { i };
            assert(s[si] == x);
        }
        if s.contains(x) && x != s[k] {
            let i = choose|i: int| 0 <= i < s.len() && s[i] == x;
            if i == n {
                assert(r[k] == x);
            } else {
                assert(r[i] == x);
            }
        }
    }
}

impl Pallet {
    /// Why moving `kitty_id` from `from` to `to` would be refused, checked in
    /// this order.
    pub open spec fn transfer_error(&self, from: AccountId, to: AccountId, kitty_id: Dna) -> Option<
        Error,
    > {
        if from == to {
            Some(Error::TransferToSelf)
        } else if !self.registry().contains_key(kitty_id) {
            Some(Error::NoAsset)
        } else if self.registry()[kitty_id].owner != from {
            Some(Error::NotOwner)
        } else if self.owned_of(to).len() >= self.capacity() {
            Some(Error::TooManyOwned)
        } else {
            None
        }
    }

    /// `post` is `pre` after `kitty_id` moved from `from` to `to`: the record
    /// names the new owner and keeps its price, the identifier left the list of
    /// `from` by a swap removal and was appended to the list of `to`, and the
    /// other lists, the counter and the capacity are as they were.
    pub open spec fn transferred(
        pre: Pallet,
        post: Pallet,
        from: AccountId,
        to: AccountId,
        kitty_id: Dna,
    ) -> bool {
        &&& post.registry() == pre.registry().insert(
            kitty_id,
            (Kitty { dna: kitty_id, owner: to, price: pre.registry()[kitty_id].price }),
        )
        &&& exists|k: int|
            0 <= k < pre.owned_of(from).len() && pre.owned_of(from)[k] == kitty_id
                && post.owned_of(from) == swap_removed(pre.owned_of(from), k)
        &&& post.owned_of(to) == pre.owned_of(to).push(kitty_id)
        &&& forall|a: AccountId|
            a != from && a != to ==> #[trigger] post.owned_of(a) == pre.owned_of(a)
        &&& post.count_spec() == pre.count_spec()
        &&& post.capacity() == pre.capacity()
    }

    /// Moves `kitty_id` from `from` to `to`; refused without any change where
    /// `transfer_error` names a reason.
    pub fn do_transfer(&mut self, from: AccountId, to: AccountId, kitty_id: Dna) -> (r: Result<
        (),
        Error,
    >)
        requires
            old(self).wf(),
        ensures
            final(self).wf(),
            match old(self).transfer_error(from, to, kitty_id) {
                Some(e) => r == Err::<(), Error>(e) && *final(self) == *old(self),
                None => {
                    &&& r is Ok
                    &&& Pallet::transferred(*old(self), *final(self), from, to, kitty_id)
                    &&& final(self).event_log() == old(self).event_log().push(
                        Event::Transferred { from, to, kitty_id },
                    )
                },
            },
    {
        let ghost pre = *self;
        if from == to {
            return Err(Error::TransferToSelf);
        }
        let ki = match self.find_kitty(&kitty_id) {
            Some(i) => i,
            None => {
                return Err(Error::NoAsset);
            },
        };
        let mut kitty = self.kitties[ki];
        assert(pre.registry@.contains_key(pre.kitties@[ki as int].dna));
        if kitty.owner != from {
            return Err(Error::NotOwner);
        }
        let ti = self.find_owner(to);
        match ti {
            Some(i) => {
                if self.owned[i].dnas.len() >= self.max_owned {
                    return Err(Error::TooManyOwned);
                }
            },
            None => {
                if self.max_owned == 0 {
                    return Err(Error::TooManyOwned);
                }
            },
        }
        // The registry and the lists agree, so `from` holds `kitty_id`; the
        // check stays against a store that would not.
        let fi = match self.find_owner(from) {
            Some(i) => i,
            None => {
                return Err(Error::NoAsset);
            },
        };
        let pos = match position_of(&self.owned[fi].dnas, &kitty_id) {
            Some(p) => p,
            None => {
                return Err(Error::NoAsset);
            },
        };
        let ghost from_list = pre.owned_of(from);
        let ghost to_list = pre.owned_of(to);
        kitty.owner = to;
        self.kitties.set(ki, kitty);
        self.owned[fi].dnas.swap_remove(pos);
        match ti {
            Some(i) => {
                self.owned[i].dnas.push(kitty_id);
            },
            None => {
                let mut dnas: Vec<Dna> = Vec::new();
                dnas.push(kitty_id);
                self.owned.push(OwnedKitties { owner: to, dnas });
            },
        }
        self.registry = Ghost(self.registry@.insert(kitty_id, kitty));
        self.index = Ghost(
            self.index@.insert(from, swap_removed(from_list, pos as int)).insert(
                to,
                to_list.push(kitty_id),
            ),
        );
        self.events.push(Event::Transferred { from, to, kitty_id });
        proof {
            lemma_swap_removed(from_list, pos as int);
            assert(self.registry@.dom() =~= pre.registry@.dom());
            assert(!to_list.contains(kitty_id)) by {
                if to_list.contains(kitty_id) {
                    let k = choose|k: int| 0 <= k < to_list.len() && to_list[k] == kitty_id;
                    assert(pre.registry@[pre.owned_of(to)[k]].owner == to);
                }
            }
            assert forall|a: AccountId| a != from && a != to implies #[trigger] self.owned_of(a)
                == pre.owned_of(a) by {}
            assert forall|i: int| 0 <= i < self.kitties@.len() implies #[trigger]
                self.registry@.contains_key(self.kitties@[i].dna) && self.registry@[self.kitties@[i].dna]
                == self.kitties@[i] by {
                assert(pre.registry@.contains_key(pre.kitties@[i].dna));
            }
            assert forall|d: Dna| #[trigger] self.registry@.contains_key(d) implies exists|i: int|
                0 <= i < self.kitties@.len() && #[trigger] self.kitties@[i].dna == d by {
                let i = choose|i: int| 0 <= i < pre.kitties@.len() && #[trigger] pre.kitties@[i].dna == d;
                assert(self.kitties@[i].dna == d);
            }
            assert forall|i: int, j: int|
                0 <= i < self.kitties@.len() && 0 <= j < self.kitties@.len()
                    && #[trigger] self.kitties@[i].dna == #[trigger] self.kitties@[j].dna implies i == j by {
                assert(pre.kitties@[i].dna == self.kitties@[i].dna);
                assert(pre.kitties@[j].dna == self.kitties@[j].dna);
            }
            assert forall|i: int| 0 <= i < self.owned@.len() implies #[trigger] self.index@.contains_key(
                self.owned@[i].owner) && self.index@[self.owned@[i].owner] == self.owned@[i].dnas@ by {
                if i < pre.owned@.len() {
                    assert(pre.index@.contains_key(pre.owned@[i].owner));
                }
            }
            assert forall|a: AccountId| #[trigger] self.index@.contains_key(a) implies exists|i: int|
                0 <= i < self.owned@.len() && #[trigger] self.owned@[i].owner == a by {
                if a == to && !pre.index@.contains_key(to) {
                    assert(self.owned@[pre.owned@.len() as int].owner == a);
                } else {
                    let i = choose|i: int| 0 <= i < pre.owned@.len() && #[trigger] pre.owned@[i].owner == a;
                    assert(self.owned@[i].owner == a);
                }
            }
            assert forall|i: int, j: int|
                0 <= i < self.owned@.len() && 0 <= j < self.owned@.len()
                    && #[trigger] self.owned@[i].owner == #[trigger] self.owned@[j].owner implies i == j by {
                if i < pre.owned@.len() {
                    assert(pre.index@.contains_key(pre.owned@[i].owner));
                    assert(pre.owned@[i].owner == self.owned@[i].owner);
                }
                if j < pre.owned@.len() {
                    assert(pre.index@.contains_key(pre.owned@[j].owner));
                    assert(pre.owned@[j].owner == self.owned@[j].owner);
                }
            }
            assert forall|a: AccountId| #[trigger] self.owned_of(a).len() <= self.max_owned by {
                assert(pre.owned_of(a).len() <= pre.max_owned);
            }
            assert forall|a: AccountId| #[trigger] self.owned_of(a).no_duplicates() by {
                assert(pre.owned_of(a).no_duplicates());
            }
            assert forall|a: AccountId, k: int|
                0 <= k < self.owned_of(a).len() implies self.registry@.contains_key(
                    #[trigger] self.owned_of(a)[k]) && self.registry@[self.owned_of(a)[k]].owner == a by {
                let d = self.owned_of(a)[k];
                if a == to {
                    if k < to_list.len() {
                        assert(pre.owned_of(a)[k] == d);
                        assert(pre.registry@.contains_key(pre.owned_of(a)[k]));
                    }
                } else if a == from {
                    assert(self.owned_of(a).contains(d));
                    assert(from_list.contains(d));
                    let k0 = choose|k0: int| 0 <= k0 < from_list.len() && from_list[k0] == d;
                    assert(pre.registry@.contains_key(pre.owned_of(a)[k0]));
                } else {
                    assert(pre.owned_of(a)[k] == d);
                    assert(pre.registry@.contains_key(pre.owned_of(a)[k]));
                    assert(d != kitty_id);
                }
            }
            assert forall|d: Dna| #[trigger] self.registry@.contains_key(d) implies self.owned_of(
                self.registry@[d].owner).contains(d) by {
                if d != kitty_id {
                    assert(pre.registry@.contains_key(d));
                    let o = pre.registry@[d].owner;
                    assert(pre.owned_of(o).contains(d));
                    if o == to {
                        let k = choose|k: int| 0 <= k < to_list.len() && to_list[k] == d;
                        assert(self.owned_of(o)[k] == d);
                    } else if o == from {
                        assert(swap_removed(from_list, pos as int).contains(d));
                    }
                } else {
                    assert(self.owned_of(to)[to_list.len() as int] == kitty_id);
                }
            }
        }
        Ok(())
    }
}

/// A currency ledger that can move an amount between two accounts.
pub trait Ledger {
    /// Moves `amount` from `from` to `to`; where `keep_alive` holds, refuses
    /// rather than take `from` below the balance it must keep.
    fn transfer(
        &mut self,
        from: AccountId,
        to: AccountId,
        amount: Balance,
        keep_alive: bool,
    ) -> Result<(), LedgerError>;
}

impl Pallet {
    /// An identifier derived from `ctx` and the current number of kitties.
    pub fn gen_dna(&self, ctx: &ExecutionContext) -> (r: Dna)
        ensures
            r@ == blake2_256_of(dna_payload(*ctx, self.count_spec())),
    {
        derive_dna(ctx, self.count)
    }

    /// Why setting the price of `kitty_id` on behalf of `caller` would be
    /// refused.
    pub open spec fn set_price_error(&self, caller: AccountId, kitty_id: Dna) -> Option<Error> {
        if !self.registry().contains_key(kitty_id) {
            Some(Error::NoAsset)
        } else if self.registry()[kitty_id].owner != caller {
            Some(Error::NotOwner)
        } else {
            None
        }
    }

    /// Lists `kitty_id` at `new_price`, or takes it off sale with `None`;
    /// refused without any change where `set_price_error` names a reason.
    pub fn do_set_price(&mut self, caller: AccountId, kitty_id: Dna, new_price: Option<Balance>) -> (r:
        Result<(), Error>)
        requires
            old(self).wf(),
        ensures
            final(self).wf(),
            match old(self).set_price_error(caller, kitty_id) {
                Some(e) => r == Err::<(), Error>(e) && *final(self) == *old(self),
                None => {
                    &&& r is Ok
                    &&& final(self).registry() == old(self).registry().insert(
                        kitty_id,
                        (Kitty { dna: kitty_id, owner: caller, price: new_price }),
                    )
                    &&& forall|a: AccountId| #[trigger]
                        final(self).owned_of(a) == old(self).owned_of(a)
                    &&& final(self).count_spec() == old(self).count_spec()
                    &&& final(self).capacity() == old(self).capacity()
                    &&& final(self).event_log() == old(self).event_log().push(
                        Event::PriceSet { owner: caller, kitty_id, new_price },
                    )
                },
            },
    {
        let ghost pre = *self;
        let ki = match self.find_kitty(&kitty_id) {
            Some(i) => i,
            None => {
                return Err(Error::NoAsset);
            },
        };
        let mut kitty = self.kitties[ki];
        assert(pre.registry@.contains_key(pre.kitties@[ki as int].dna));
        if kitty.owner != caller {
            return Err(Error::NotOwner);
        }
        kitty.price = new_price;
        self.kitties.set(ki, kitty);
        self.registry = Ghost(self.registry@.insert(kitty_id, kitty));
        self.events.push(Event::PriceSet { owner: caller, kitty_id, new_price });
        proof {
            assert(self.registry@.dom() =~= pre.registry@.dom());
            assert(self.owned == pre.owned && self.index == pre.index);
            assert forall|a: AccountId| #[trigger] self.owned_of(a) == pre.owned_of(a) by {}
            assert(self.count as nat == self.registry@.dom().len());
            assert forall|d: Dna| #[trigger] self.registry@.contains_key(d) implies self.registry@[d].dna == d by {
                assert(pre.registry@.contains_key(d));
            }
            assert forall|i: int| 0 <= i < self.kitties@.len() implies #[trigger]
                self.registry@.contains_key(self.kitties@[i].dna) && self.registry@[self.kitties@[i].dna]
                == self.kitties@[i] by {
                assert(pre.registry@.contains_key(pre.kitties@[i].dna));
            }
            assert forall|d: Dna| #[trigger] self.registry@.contains_key(d) implies exists|i: int|
                0 <= i < self.kitties@.len() && #[trigger] self.kitties@[i].dna == d by {
                let i = choose|i: int| 0 <= i < pre.kitties@.len() && #[trigger] pre.kitties@[i].dna == d;
                assert(self.kitties@[i].dna == d);
            }
            assert forall|i: int, j: int|
                0 <= i < self.kitties@.len() && 0 <= j < self.kitties@.len()
                    && #[trigger] self.kitties@[i].dna == #[trigger] self.kitties@[j].dna implies i == j by {
                assert(pre.kitties@[i].dna == self.kitties@[i].dna);
                assert(pre.kitties@[j].dna == self.kitties@[j].dna);
            }
            assert forall|a: AccountId, k: int|
                0 <= k < self.owned_of(a).len() implies self.registry@.contains_key(
                    #[trigger] self.owned_of(a)[k]) && self.registry@[self.owned_of(a)[k]].owner == a by {
                assert(pre.registry@.contains_key(pre.owned_of(a)[k]));
            }
            assert forall|d: Dna| #[trigger] self.registry@.contains_key(d) implies self.owned_of(
                self.registry@[d].owner).contains(d) by {
                assert(pre.registry@.contains_key(d));
            }
        }
        Ok(())
    }

    /// Why `buyer` could not buy `kitty_id` for at most `max_price`: the kitty
    /// is missing, not for sale, dearer than `max_price`, or the ownership move
    /// that the purchase ends with would be refused. Checked in this order,
    /// all before any currency moves.
    pub open spec fn buy_error(&self, buyer: AccountId, kitty_id: Dna, max_price: Balance) -> Option<
        Error,
    > {
        if !self.registry().contains_key(kitty_id) {
            Some(Error::NoAsset)
        } else if self.registry()[kitty_id].price is None {
            Some(Error::NotForSale)
        } else if max_price < self.registry()[kitty_id].price.unwrap() {
            Some(Error::MaxPriceTooLow)
        } else {
            self.transfer_error(self.registry()[kitty_id].owner, buyer, kitty_id)
        }
    }

    /// `post` is `pre` after `buyer` bought `kitty_id`: ownership moved from
    /// the seller to `buyer` with the listed price left in place, and the
    /// `Transferred` and `Sold` events were emitted.
    pub open spec fn bought(pre: Pallet, post: Pallet, buyer: AccountId, kitty_id: Dna) -> bool {
        let seller = pre.registry()[kitty_id].owner;
        let price = pre.registry()[kitty_id].price.unwrap();
        &&& Pallet::transferred(pre, post, seller, buyer, kitty_id)
        &&& post.event_log() == pre.event_log().push(
            Event::Transferred { from: seller, to: buyer, kitty_id },
        ).push(Event::Sold { buyer, kitty_id, price })
    }

    /// The payment that buying `kitty_id` for at most `max_price` takes: the
    /// seller and the listed price, or why the purchase is refused.
    pub fn buy_quote(&self, buyer: AccountId, kitty_id: Dna, max_price: Balance) -> (r: Result<
        (AccountId, Balance),
        Error,
    >)
        requires
            self.wf(),
        ensures
            match self.buy_error(buyer, kitty_id, max_price) {
                Some(e) => r == Err::<(AccountId, Balance), Error>(e),
                None => r == Ok::<(AccountId, Balance), Error>(
                    (self.registry()[kitty_id].owner, self.registry()[kitty_id].price.unwrap()),
                ),
            },
    {
        let ki = match self.find_kitty(&kitty_id) {
            Some(i) => i,
            None => {
                return Err(Error::NoAsset);
            },
        };
        let kitty = self.kitties[ki];
        assert(self.registry@.contains_key(self.kitties@[ki as int].dna));
        let price = match kitty.price {
            Some(p) => p,
            None => {
                return Err(Error::NotForSale);
            },
        };
        if max_price < price {
            return Err(Error::MaxPriceTooLow);
        }
        let seller = kitty.owner;
        if seller == buyer {
            return Err(Error::TransferToSelf);
        }
        match self.find_owner(buyer) {
            Some(i) => {
                if self.owned[i].dnas.len() >= self.max_owned {
                    return Err(Error::TooManyOwned);
                }
            },
            None => {
                if self.max_owned == 0 {
                    return Err(Error::TooManyOwned);
                }
            },
        }
        Ok((seller, price))
    }

    /// Completes a purchase that `buy_quote` priced, given what the ledger did
    /// with the payment: a refused payment is handed on and changes nothing,
    /// a made one moves the kitty to `buyer`.
    pub fn settle_buy(&mut self, buyer: AccountId, kitty_id: Dna, paid: Result<(), LedgerError>) -> (r:
        Result<(), Error>)
        requires
            old(self).wf(),
            old(self).registry().contains_key(kitty_id),
            old(self).registry()[kitty_id].price is Some,
            old(self).transfer_error(old(self).registry()[kitty_id].owner, buyer, kitty_id) is None,
        ensures
            final(self).wf(),
            match paid {
                Err(e) => r == Err::<(), Error>(Error::Ledger(e)) && *final(self) == *old(self),
                Ok(()) => r is Ok && Pallet::bought(*old(self), *final(self), buyer, kitty_id),
            },
    {
        match paid {
            Err(e) => {
                return Err(Error::Ledger(e));
            },
            Ok(()) => {},
        }
        let ki = match self.find_kitty(&kitty_id) {
            Some(i) => i,
            None => {
                return Err(Error::NoAsset);
            },
        };
        let kitty = self.kitties[ki];
        assert(self.registry@.contains_key(self.kitties@[ki as int].dna));
        let price = match kitty.price {
            Some(p) => p,
            None => {
                return Err(Error::NotForSale);
            },
        };
        let r = self.do_transfer(kitty.owner, buyer, kitty_id);
        if r.is_err() {
            return r;
        }
        let ghost mid = *self;
        self.events.push(Event::Sold { buyer, kitty_id, price });
        assert(self.kitties == mid.kitties && self.owned == mid.owned && self.registry == mid.registry
            && self.index == mid.index && self.count == mid.count && self.max_owned == mid.max_owned);
        assert forall|a: AccountId| #[trigger] self.owned_of(a) == mid.owned_of(a) by {}
        Ok(())
    }

    /// Buys `kitty_id` for `buyer` at its listed price, provided that is no more
    /// than `max_price`: the price goes from `buyer` to the seller through
    /// `ledger`, keeping `buyer` above its minimum balance, and then the kitty
    /// goes to `buyer`. Every check is made before the ledger is called, so a
    /// refusal leaves both the store and the ledger untouched; a payment the
    /// ledger refuses is handed on and leaves the store untouched.
    pub fn do_buy_kitty<L: Ledger>(
        &mut self,
        ledger: &mut L,
        buyer: AccountId,
        kitty_id: Dna,
        max_price: Balance,
    ) -> (r: Result<(), Error>)
        requires
            old(self).wf(),
        ensures
            final(self).wf(),
            match old(self).buy_error(buyer, kitty_id, max_price) {
                Some(e) => {
                    &&& r == Err::<(), Error>(e)
                    &&& *final(self) == *old(self)
                    &&& *final(ledger) == *old(ledger)
                },
                None => {
                    ||| r is Ok && Pallet::bought(*old(self), *final(self), buyer, kitty_id)
                    ||| r matches Err(Error::Ledger(_)) && *final(self) == *old(self)
                },
            },
    {
        let (seller, price) = match self.buy_quote(buyer, kitty_id, max_price) {
            Ok(q) => q,
            Err(e) => {
                return Err(e);
            },
        };
        let paid = ledger.transfer(buyer, seller, price, true);
        self.settle_buy(buyer, kitty_id, paid)
    }
}

impl Pallet {
    /// The number of kitties minted.
    pub fn count(&self) -> (r: u32)
        ensures
            r == self.count_spec(),
    {
        self.count
    }

    /// How many kitties one account may own.
    pub fn max_owned(&self) -> (r: usize)
        ensures
            r == self.capacity(),
    {
        self.max_owned
    }

    /// The record of `dna`, if there is one.
    pub fn kitty(&self, dna: &Dna) -> (r: Option<Kitty>)
        requires
            self.wf(),
        ensures
            r == (if self.registry().contains_key(*dna) {
                Some(self.registry()[*dna])
            } else {
                None::<Kitty>
            }),
    {
        match self.find_kitty(dna) {
            Some(i) => {
                assert(self.registry@.contains_key(self.kitties@[i as int].dna));
                Some(self.kitties[i])
            },
            None => None,
        }
    }

    /// The identifiers that `owner` holds, in the order of its list.
    pub fn kitties_owned(&self, owner: AccountId) -> (r: Vec<Dna>)
        requires
            self.wf(),
        ensures
            r@ == self.owned_of(owner),
    {
        let mut out: Vec<Dna> = Vec::new();
        match self.find_owner(owner) {
            Some(i) => {
                let list = &self.owned[i].dnas;
                let mut k: usize = 0;
                while k < list.len()
                    invariant
                        0 <= k <= list@.len(),
                        out@ =~= list@.subrange(0, k as int),
                    decreases list@.len() - k,
                {
                    out.push(list[k]);
                    k += 1;
                }
                assert(list@.subrange(0, list@.len() as int) =~= list@);
            },
            None => {},
        }
        out
    }

    /// The events emitted so far, oldest first.
    pub fn events(&self) -> (r: &Vec<Event>)
        ensures
            r@ == self.event_log(),
    {
        &self.events
    }
}

} // verus!
