//! The registry state and the four operations on it: create, transfer, set price, buy.

use vstd::prelude::*;
use std::collections::HashMap;
use crate::dna::{dna_for, dna_from};
use crate::types::{
    ensure_signed, signer_of, BlockContext, Error, Event, Kitty, Origin, Sale, MAX_OWNED,
};

verus! {

broadcast use vstd::std_specs::hash::group_hash_axioms;

/// The whole state of the registry.
///
/// `kitties` holds each registered kitty once; `kitties_owned` maps an account
/// to the ids it holds; `count_for_kitties` counts the registered kitties;
/// `events` logs what each successful call reported. `registry` is the
/// registry seen as a map from id to kitty.
pub struct Pallet {
    kitties: Vec<Kitty>,
    count_for_kitties: u32,
    kitties_owned: HashMap<u64, Vec<[u8; 32]>>,
    events: Vec<Event>,
    registry: Ghost<Map<[u8; 32], Kitty>>,
}

impl Pallet {
    /// The registered kitties, by id.
    pub closed spec fn kitties(&self) -> Map<[u8; 32], Kitty> {
        self.registry@
    }

    /// The registry counter.
    pub closed spec fn count(&self) -> nat {
        self.count_for_kitties as nat
    }

    /// The ids that `who` holds; empty for an account never seen.
    pub closed spec fn owned(&self, who: u64) -> Seq<[u8; 32]> {
        if self.kitties_owned@.contains_key(who) {
            self.kitties_owned@[who]@
        } else {
            Seq::empty()
        }
    }

    /// The events reported so far, oldest first.
    pub closed spec fn events(&self) -> Seq<Event> {
        self.events@
    }

    /// The registry and the owner index agree: each id is registered once, the
    /// counter counts the registered kitties, each kitty's id stands once in its
    /// owner's list and in no other, and no list is longer than `MAX_OWNED`.
    pub closed spec fn wf(&self) -> bool {
        &&& self.count_for_kitties as nat == self.kitties@.len()
        &&& forall|i: int, j: int|
            0 <= i < self.kitties@.len() && 0 <= j < self.kitties@.len() && i != j
                ==> #[trigger] self.kitties@[i].dna != #[trigger] self.kitties@[j].dna
        &&& forall|i: int|
            0 <= i < self.kitties@.len() ==> {
                &&& self.registry@.contains_key(#[trigger] self.kitties@[i].dna)
                &&& self.registry@[self.kitties@[i].dna] == self.kitties@[i]
            }
        &&& forall|d: [u8; 32]|
            #[trigger] self.registry@.contains_key(d) ==> exists|i: int|
                0 <= i < self.kitties@.len() && #[trigger] self.kitties@[i].dna == d
        &&& forall|o: u64|
            #[trigger] self.owned(o).len() <= MAX_OWNED && self.owned(o).no_duplicates()
        &&& forall|d: [u8; 32]|
            #[trigger] self.registry@.contains_key(d) ==> self.owned(self.registry@[d].owner).contains(d)
        &&& forall|o: u64, k: int|
            0 <= k < self.owned(o).len() ==> {
                &&& self.registry@.contains_key(#[trigger] self.owned(o)[k])
                &&& self.registry@[self.owned(o)[k]].owner == o
            }
    }

    /// What `mint(owner, dna)` returns in this state.
    pub open spec fn mint_result(&self, owner: u64, dna: [u8; 32]) -> Result<(), Error> {
        if self.kitties().contains_key(dna) {
            Err(Error::DuplicatedKitty)
        } else if self.count() >= u32::MAX as nat {
            Err(Error::TooManyKitties)
        } else if self.owned(owner).len() >= MAX_OWNED {
            Err(Error::TooManyOwned)
        } else {
            Ok(())
        }
    }

    /// An empty registry.
    pub fn new() -> (r: Pallet)
        ensures
            r.wf(),
            r.kitties() == Map::<[u8; 32], Kitty>::empty(),
            r.count() == 0,
            forall|o: u64| r.owned(o) == Seq::<[u8; 32]>::empty(),
            r.events() == Seq::<Event>::empty(),
    {
        let r = Pallet {
            kitties: Vec::new(),
            count_for_kitties: 0,
            kitties_owned: HashMap::new(),
            events: Vec::new(),
            registry: Ghost(Map::empty()),
        };
        assert(r.kitties_owned@ == Map::<u64, Vec<[u8; 32]>>::empty());
        r
    }

    /// Index of the kitty with id `dna` in the registry, if it is registered.
    fn find_kitty(&self, dna: &[u8; 32]) -> (r: Option<usize>)
        requires
            self.wf(),
        ensures
            match r {
                Some(i) => {
                    &&& i < self.kitties@.len()
                    &&& self.kitties@[i as int].dna == *dna
                    &&& self.kitties().contains_key(*dna)
                    &&& self.kitties()[*dna] == self.kitties@[i as int]
                },
                None => !self.kitties().contains_key(*dna),
            },
    {
        let mut i: usize = 0;
        while i < self.kitties.len()
            invariant
                self.wf(),
                0 <= i <= self.kitties@.len(),
                forall|j: int| 0 <= j < i ==> self.kitties@[j].dna != *dna,
            decreases self.kitties@.len() - i,
        {
            if crate::types::same_dna(&self.kitties[i].dna, dna) {
                return Some(i);
            }
            i = i + 1;
        }
        None
    }

    /// How many ids `who` holds.
    fn owned_len(&self, who: u64) -> (r: usize)
        ensures
            r == self.owned(who).len(),
    {
        match self.kitties_owned.get(&who) {
            Some(list) => list.len(),
            None => 0,
        }
    }

    /// Appends `dna` to the list of `who`, leaving every other part of the state as it is.
    fn append_owned(&mut self, who: u64, dna: [u8; 32])
        ensures
            final(self).owned(who) == old(self).owned(who).push(dna),
            forall|o: u64| o != who ==> final(self).owned(o) == old(self).owned(o),
            final(self).kitties == old(self).kitties,
            final(self).count_for_kitties == old(self).count_for_kitties,
            final(self).events == old(self).events,
            final(self).registry == old(self).registry,
    {
        let mut list = match self.kitties_owned.remove(&who) {
            Some(list) => list,
            None => Vec::new(),
        };
        list.push(dna);
        self.kitties_owned.insert(who, list);
        assert forall|o: u64| o != who implies final(self).owned(o) == old(self).owned(o) by {
            assert(self.kitties_owned@.contains_key(o) == old(self).kitties_owned@.contains_key(o));
        }
    }

    /// Registers a new kitty with id `dna` for `owner`, not for sale.
    ///
    /// Fails, changing nothing, with `DuplicatedKitty` when the id is taken,
    /// `TooManyKitties` when the counter is at its largest value, and
    /// `TooManyOwned` when `owner` already holds `MAX_OWNED` kitties.
    pub fn mint(&mut self, owner: u64, dna: [u8; 32]) -> (r: Result<(), Error>)
        requires
            old(self).wf(),
        ensures
            final(self).wf(),
            r == old(self).mint_result(owner, dna),
            r is Err ==> *final(self) == *old(self),
            r is Ok ==> Self::minted(*old(self), *final(self), owner, dna),
    {
        if self.find_kitty(&dna).is_some() {
            return Err(Error::DuplicatedKitty);
        }
        if self.count_for_kitties == u32::MAX {
            return Err(Error::TooManyKitties);
        }
        if self.owned_len(owner) >= MAX_OWNED {
            return Err(Error::TooManyOwned);
        }
        let ghost pre = *self;
        let kitty = Kitty { dna, owner, price: None };
        self.count_for_kitties = self.count_for_kitties + 1;
        self.kitties.push(kitty);
        self.registry = Ghost(self.registry@.insert(dna, kitty));
        let ghost before = *self;
        self.append_owned(owner, dna);
        let ghost after = *self;
        self.events.push(Event::Created { owner, kitty_id: dna });
        proof {
            assert(before.kitties_owned == pre.kitties_owned);
            assert forall|o: u64| o != owner implies self.owned(o) == pre.owned(o) by {
                assert(after.owned(o) == before.owned(o));
            }
            self.lemma_mint_wf(pre, owner, dna);
        }
        Ok(())
    }

    proof fn lemma_mint_wf(&self, pre: Pallet, owner: u64, dna: [u8; 32])
        requires
            pre.wf(),
            !pre.registry@.contains_key(dna),
            pre.owned(owner).len() < MAX_OWNED,
            self.count_for_kitties == pre.count_for_kitties + 1,
            self.kitties@ == pre.kitties@.push(Kitty { dna, owner, price: None }),
            self.registry@ == pre.registry@.insert(dna, Kitty { dna, owner, price: None }),
            self.owned(owner) == pre.owned(owner).push(dna),
            forall|o: u64| o != owner ==> self.owned(o) == pre.owned(o),
        ensures
            self.wf(),
    {
        let n = pre.kitties@.len() as int;
        assert forall|i: int| 0 <= i < n implies pre.kitties@[i].dna != dna by {
            assert(pre.registry@.contains_key(pre.kitties@[i].dna));
        }
        assert forall|d: [u8; 32]| #[trigger] self.registry@.contains_key(d) implies exists|i: int|
            0 <= i < self.kitties@.len() && #[trigger] self.kitties@[i].dna == d by {
            if d == dna {
                assert(self.kitties@[n].dna == d);
            } else {
                assert(pre.registry@.contains_key(d));
                let i = choose|i: int| 0 <= i < pre.kitties@.len() && #[trigger] pre.kitties@[i].dna == d;
                assert(self.kitties@[i].dna == d);
            }
        }
        assert forall|o: u64| #[trigger] self.owned(o).len() <= MAX_OWNED && self.owned(o).no_duplicates() by {
            if o == owner {
                assert(pre.owned(o).len() <= MAX_OWNED && pre.owned(o).no_duplicates());
                assert forall|k: int| 0 <= k < pre.owned(o).len() implies pre.owned(o)[k] != dna by {
                    assert(pre.registry@.contains_key(pre.owned(o)[k]));
                }
            } else {
                assert(pre.owned(o).len() <= MAX_OWNED && pre.owned(o).no_duplicates());
            }
        }
        assert forall|d: [u8; 32]| #[trigger] self.registry@.contains_key(d) implies self.owned(
            self.registry@[d].owner,
        ).contains(d) by {
            if d == dna {
                assert(self.owned(owner)[pre.owned(owner).len() as int] == dna);
            } else {
                assert(pre.registry@.contains_key(d));
                let o = pre.registry@[d].owner;
                assert(pre.owned(o).contains(d));
                let k = choose|k: int| 0 <= k < pre.owned(o).len() && pre.owned(o)[k] == d;
                assert(self.owned(o)[k] == d);
            }
        }
        assert forall|o: u64, k: int| 0 <= k < self.owned(o).len() implies {
            &&& self.registry@.contains_key(#[trigger] self.owned(o)[k])
            &&& self.registry@[self.owned(o)[k]].owner == o
        } by {
            if o == owner && k == pre.owned(o).len() {
            } else {
                assert(self.owned(o)[k] == pre.owned(o)[k]);
                assert(pre.registry@.contains_key(pre.owned(o)[k]));
            }
        }
    }

    /// What `do_transfer(from, to, dna)` returns in this state.
    pub open spec fn transfer_result(&self, from: u64, to: u64, dna: [u8; 32]) -> Result<(), Error> {
        if from == to {
            Err(Error::TransferToSelf)
        } else if !self.kitties().contains_key(dna) {
            Err(Error::NoKitty)
        } else if self.kitties()[dna].owner != from {
            Err(Error::NotOwner)
        } else if !self.owned(from).contains(dna) {
            Err(Error::InconsistentState)
        } else if self.owned(to).len() >= MAX_OWNED {
            Err(Error::TooManyOwned)
        } else {
            Ok(())
        }
    }

    /// `after` is `before` with the kitty `dna` moved from `from` to `to` and given
    /// `price`; the counter and every other list stay as they were.
    pub open spec fn moved(
        before: Pallet,
        after: Pallet,
        from: u64,
        to: u64,
        dna: [u8; 32],
        price: Option<u64>,
    ) -> bool {
        &&& after.kitties() == before.kitties().insert(
            dna,
            (Kitty { dna: dna, owner: to, price: price }),
        )
        &&& after.count() == before.count()
        &&& after.owned(to) == before.owned(to).push(dna)
        &&& after.owned(from).len() + 1 == before.owned(from).len()
        &&& forall|d: [u8; 32]|
            #[trigger] after.owned(from).contains(d) <==> (before.owned(from).contains(d) && d != dna)
        &&& forall|o: u64| o != from && o != to ==> after.owned(o) == before.owned(o)
    }

    /// Position of `dna` in the list of `who`, if it stands there.
    fn find_owned(&self, who: u64, dna: &[u8; 32]) -> (r: Option<usize>)
        ensures
            match r {
                Some(k) => k < self.owned(who).len() && self.owned(who)[k as int] == *dna,
                None => !self.owned(who).contains(*dna),
            },
    {
        match self.kitties_owned.get(&who) {
            None => None,
            Some(list) => {
                let mut k: usize = 0;
                while k < list.len()
                    invariant
                        list@ == self.owned(who),
                        0 <= k <= list@.len(),
                        forall|j: int| 0 <= j < k ==> list@[j] != *dna,
                    decreases list@.len() - k,
                {
                    if crate::types::same_dna(&list[k], dna) {
                        return Some(k);
                    }
                    k = k + 1;
                }
                None
            },
        }
    }

    /// Removes the entry at `pos` from the list of `who`, moving its last entry
    /// there; every other part of the state stays as it is.
    fn remove_owned(&mut self, who: u64, pos: usize)
        requires
            pos < old(self).owned(who).len(),
        ensures
            final(self).owned(who) == old(self).owned(who).update(
                pos as int,
                old(self).owned(who).last(),
            ).drop_last(),
            forall|o: u64| o != who ==> final(self).owned(o) == old(self).owned(o),
            final(self).kitties == old(self).kitties,
            final(self).count_for_kitties == old(self).count_for_kitties,
            final(self).events == old(self).events,
            final(self).registry == old(self).registry,
    {
        let mut list = match self.kitties_owned.remove(&who) {
            Some(list) => list,
            None => Vec::new(),
        };
        list.swap_remove(pos);
        self.kitties_owned.insert(who, list);
        assert forall|o: u64| o != who implies final(self).owned(o) == old(self).owned(o) by {
            assert(self.kitties_owned@.contains_key(o) == old(self).kitties_owned@.contains_key(o));
        }
    }

    /// Hands the kitty at index `i`, with id `dna`, from `from` to `to` and sets
    /// its price; `pos` is where `dna` stands in the list of `from`.
    fn commit_transfer(
        &mut self,
        i: usize,
        from: u64,
        to: u64,
        pos: usize,
        dna: [u8; 32],
        price: Option<u64>,
    )
        requires
            old(self).wf(),
            i < old(self).kitties@.len(),
            old(self).kitties@[i as int].dna == dna,
            old(self).kitties@[i as int].owner == from,
            from != to,
            pos < old(self).owned(from).len(),
            old(self).owned(from)[pos as int] == dna,
            old(self).owned(to).len() < MAX_OWNED,
        ensures
            final(self).wf(),
            Self::moved(*old(self), *final(self), from, to, dna, price),
            final(self).events == old(self).events,
    {
        let ghost pre = *self;
        let kitty = Kitty { dna, owner: to, price };
        self.kitties[i] = kitty;
        self.registry = Ghost(self.registry@.insert(dna, kitty));
        let ghost before = *self;
        self.append_owned(to, dna);
        let ghost mid = *self;
        self.remove_owned(from, pos);
        proof {
            assert(before.kitties_owned == pre.kitties_owned);
            assert forall|o: u64| o != to implies mid.owned(o) == pre.owned(o) by {
                assert(mid.owned(o) == before.owned(o));
            }
            assert(mid.owned(from) == pre.owned(from));
            assert forall|o: u64| o != to && o != from implies self.owned(o) == pre.owned(o) by {
                assert(self.owned(o) == mid.owned(o));
            }
            assert(self.owned(to) == mid.owned(to));
            lemma_swap_remove(pre.owned(from), pos as int);
            self.lemma_transfer_wf(pre, i as int, from, to, pos as int, dna, price);
        }
    }

    proof fn lemma_transfer_wf(
        &self,
        pre: Pallet,
        i: int,
        from: u64,
        to: u64,
        pos: int,
        dna: [u8; 32],
        price: Option<u64>,
    )
        requires
            pre.wf(),
            0 <= i < pre.kitties@.len(),
            pre.kitties@[i].dna == dna,
            pre.kitties@[i].owner == from,
            from != to,
            0 <= pos < pre.owned(from).len(),
            pre.owned(from)[pos] == dna,
            pre.owned(to).len() < MAX_OWNED,
            self.count_for_kitties == pre.count_for_kitties,
            self.kitties@ == pre.kitties@.update(i, Kitty { dna, owner: to, price }),
            self.registry@ == pre.registry@.insert(dna, Kitty { dna, owner: to, price }),
            self.owned(to) == pre.owned(to).push(dna),
            self.owned(from) == pre.owned(from).update(pos, pre.owned(from).last()).drop_last(),
            self.owned(from).len() + 1 == pre.owned(from).len(),
            self.owned(from).no_duplicates(),
            forall|d: [u8; 32]|
                #[trigger] self.owned(from).contains(d) <==> (pre.owned(from).contains(d) && d != dna),
            forall|o: u64| o != from && o != to ==> self.owned(o) == pre.owned(o),
        ensures
            self.wf(),
    {
        let n = pre.kitties@.len() as int;
        assert(pre.registry@.contains_key(dna));
        assert(pre.registry@[dna] == pre.kitties@[i]);
        assert forall|a: int, b: int|
            0 <= a < n && 0 <= b < n && a != b implies #[trigger] self.kitties@[a].dna
            != #[trigger] self.kitties@[b].dna by {
            assert(pre.kitties@[a].dna != pre.kitties@[b].dna);
        }
        assert forall|a: int| 0 <= a < n implies {
            &&& self.registry@.contains_key(#[trigger] self.kitties@[a].dna)
            &&& self.registry@[self.kitties@[a].dna] == self.kitties@[a]
        } by {
            if a != i {
                assert(pre.kitties@[a].dna != pre.kitties@[i].dna);
                assert(pre.registry@.contains_key(pre.kitties@[a].dna));
            }
        }
        assert forall|d: [u8; 32]| #[trigger] self.registry@.contains_key(d) implies exists|a: int|
            0 <= a < self.kitties@.len() && #[trigger] self.kitties@[a].dna == d by {
            if d == dna {
                assert(self.kitties@[i].dna == d);
            } else {
                assert(pre.registry@.contains_key(d));
                let a = choose|a: int| 0 <= a < n && #[trigger] pre.kitties@[a].dna == d;
                assert(self.kitties@[a].dna == d);
            }
        }
        assert forall|k: int| 0 <= k < pre.owned(to).len() implies pre.owned(to)[k] != dna by {
            assert(pre.registry@.contains_key(pre.owned(to)[k]));
        }
        assert forall|o: u64| #[trigger] self.owned(o).len() <= MAX_OWNED && self.owned(o).no_duplicates() by {
            assert(pre.owned(o).len() <= MAX_OWNED && pre.owned(o).no_duplicates());
        }
        assert forall|d: [u8; 32]| #[trigger] self.registry@.contains_key(d) implies self.owned(
            self.registry@[d].owner,
        ).contains(d) by {
            if d == dna {
                assert(self.owned(to)[pre.owned(to).len() as int] == dna);
            } else {
                assert(pre.registry@.contains_key(d));
                let o = pre.registry@[d].owner;
                assert(pre.owned(o).contains(d));
                if o == to {
                    let k = choose|k: int| 0 <= k < pre.owned(o).len() && pre.owned(o)[k] == d;
                    assert(self.owned(o)[k] == d);
                } else if o == from {
                    assert(self.owned(from).contains(d));
                }
            }
        }
        assert forall|o: u64, k: int| 0 <= k < self.owned(o).len() implies {
            &&& self.registry@.contains_key(#[trigger] self.owned(o)[k])
            &&& self.registry@[self.owned(o)[k]].owner == o
        } by {
            let d = self.owned(o)[k];
            if o == to {
                if k < pre.owned(to).len() {
                    assert(pre.owned(to)[k] == d);
                    assert(pre.registry@.contains_key(pre.owned(to)[k]));
                }
            } else if o == from {
                assert(self.owned(from).contains(d));
                assert(pre.owned(from).contains(d));
                let kk = choose|kk: int| 0 <= kk < pre.owned(from).len() && pre.owned(from)[kk] == d;
                assert(pre.registry@.contains_key(pre.owned(from)[kk]));
            } else {
                assert(pre.owned(o)[k] == d);
                assert(pre.registry@.contains_key(pre.owned(o)[k]));
                assert(pre.registry@[d].owner == o);
            }
        }
    }

    /// Moves the kitty `dna` from `from` to `to`, keeping its price.
    ///
    /// Fails, changing nothing, with `TransferToSelf` when `from == to`,
    /// `NoKitty` when no kitty has this id, `NotOwner` when `from` does not own
    /// it, and `TooManyOwned` when `to` already holds `MAX_OWNED` kitties.
    pub fn do_transfer(&mut self, from: u64, to: u64, dna: [u8; 32]) -> (r: Result<(), Error>)
        requires
            old(self).wf(),
        ensures
            final(self).wf(),
            r == old(self).transfer_result(from, to, dna),
            r != Err::<(), Error>(Error::InconsistentState),
            r is Err ==> *final(self) == *old(self),
            r is Ok ==> {
                &&& Self::moved(
                    *old(self),
                    *final(self),
                    from,
                    to,
                    dna,
                    old(self).kitties()[dna].price,
                )
                &&& final(self).events() == old(self).events().push(
                    (Event::Transferred { from: from, to: to, kitty_id: dna }),
                )
            },
    {
        proof {
            self.lemma_owner_lists_kitty(dna);
        }
        if from == to {
            return Err(Error::TransferToSelf);
        }
        let i = match self.find_kitty(&dna) {
            Some(i) => i,
            None => return Err(Error::NoKitty),
        };
        let price = self.kitties[i].price;
        if self.kitties[i].owner != from {
            return Err(Error::NotOwner);
        }
        let pos = match self.find_owned(from, &dna) {
            Some(pos) => pos,
            None => return Err(Error::InconsistentState),
        };
        if self.owned_len(to) >= MAX_OWNED {
            return Err(Error::TooManyOwned);
        }
        self.commit_transfer(i, from, to, pos, dna, price);
        self.deposit_event(Event::Transferred { from, to, kitty_id: dna });
        Ok(())
    }

    /// Appends `e` to the event log.
    fn deposit_event(&mut self, e: Event)
        requires
            old(self).wf(),
        ensures
            final(self).wf(),
            final(self).events() == old(self).events().push(e),
            final(self).kitties() == old(self).kitties(),
            final(self).count() == old(self).count(),
            forall|o: u64| #[trigger] final(self).owned(o) == old(self).owned(o),
    {
        self.events.push(e);
        assert forall|o: u64| #[trigger] self.owned(o) == old(self).owned(o) by {}
    }

    /// What `do_set_price(from, dna, _)` returns in this state.
    pub open spec fn set_price_result(&self, from: u64, dna: [u8; 32]) -> Result<(), Error> {
        if !self.kitties().contains_key(dna) {
            Err(Error::NoKitty)
        } else if self.kitties()[dna].owner != from {
            Err(Error::NotOwner)
        } else {
            Ok(())
        }
    }

    /// Sets the price of the kitty `kitty_id`; `None` takes it off sale.
    ///
    /// Fails, changing nothing, with `NoKitty` when no kitty has this id and
    /// `NotOwner` when `from` does not own it.
    pub fn do_set_price(&mut self, from: u64, kitty_id: [u8; 32], price: Option<u64>) -> (r: Result<
        (),
        Error,
    >)
        requires
            old(self).wf(),
        ensures
            final(self).wf(),
            r == old(self).set_price_result(from, kitty_id),
            r is Err ==> *final(self) == *old(self),
            r is Ok ==> {
                &&& final(self).kitties() == old(self).kitties().insert(
                    kitty_id,
                    (Kitty { dna: kitty_id, owner: from, price: price }),
                )
                &&& final(self).count() == old(self).count()
                &&& forall|o: u64| #[trigger] final(self).owned(o) == old(self).owned(o)
                &&& final(self).events() == old(self).events().push(
                    (Event::PriceSet { owner: from, kitty_id: kitty_id, new_price: price }),
                )
            },
    {
        let i = match self.find_kitty(&kitty_id) {
            Some(i) => i,
            None => return Err(Error::NoKitty),
        };
        if self.kitties[i].owner != from {
            return Err(Error::NotOwner);
        }
        let ghost pre = *self;
        let kitty = Kitty { dna: kitty_id, owner: from, price };
        self.kitties[i] = kitty;
        self.registry = Ghost(self.registry@.insert(kitty_id, kitty));
        proof {
            assert forall|o: u64| #[trigger] self.owned(o) == pre.owned(o) by {}
            self.lemma_reprice_wf(pre, i as int, kitty_id, from, price);
        }
        self.deposit_event(Event::PriceSet { owner: from, kitty_id, new_price: price });
        Ok(())
    }

    proof fn lemma_reprice_wf(&self, pre: Pallet, i: int, dna: [u8; 32], owner: u64, price: Option<u64>)
        requires
            pre.wf(),
            0 <= i < pre.kitties@.len(),
            pre.kitties@[i].dna == dna,
            pre.kitties@[i].owner == owner,
            self.count_for_kitties == pre.count_for_kitties,
            self.kitties@ == pre.kitties@.update(i, Kitty { dna, owner, price }),
            self.registry@ == pre.registry@.insert(dna, Kitty { dna, owner, price }),
            forall|o: u64| #[trigger] self.owned(o) == pre.owned(o),
        ensures
            self.wf(),
    {
        let n = pre.kitties@.len() as int;
        assert(pre.registry@.contains_key(dna));
        assert forall|a: int, b: int|
            0 <= a < n && 0 <= b < n && a != b implies #[trigger] self.kitties@[a].dna
            != #[trigger] self.kitties@[b].dna by {
            assert(pre.kitties@[a].dna != pre.kitties@[b].dna);
        }
        assert forall|a: int| 0 <= a < n implies {
            &&& self.registry@.contains_key(#[trigger] self.kitties@[a].dna)
            &&& self.registry@[self.kitties@[a].dna] == self.kitties@[a]
        } by {
            if a != i {
                assert(pre.kitties@[a].dna != pre.kitties@[i].dna);
                assert(pre.registry@.contains_key(pre.kitties@[a].dna));
            }
        }
        assert forall|d: [u8; 32]| #[trigger] self.registry@.contains_key(d) implies exists|a: int|
            0 <= a < self.kitties@.len() && #[trigger] self.kitties@[a].dna == d by {
            if d == dna {
                assert(self.kitties@[i].dna == d);
            } else {
                assert(pre.registry@.contains_key(d));
                let a = choose|a: int| 0 <= a < n && #[trigger] pre.kitties@[a].dna == d;
                assert(self.kitties@[a].dna == d);
            }
        }
        assert forall|o: u64| #[trigger] self.owned(o).len() <= MAX_OWNED && self.owned(o).no_duplicates() by {
            assert(pre.owned(o).len() <= MAX_OWNED && pre.owned(o).no_duplicates());
        }
        assert forall|d: [u8; 32]| #[trigger] self.registry@.contains_key(d) implies self.owned(
            self.registry@[d].owner,
        ).contains(d) by {
            assert(pre.registry@.contains_key(d));
            assert(pre.owned(pre.registry@[d].owner).contains(d));
        }
        assert forall|o: u64, k: int| 0 <= k < self.owned(o).len() implies {
            &&& self.registry@.contains_key(#[trigger] self.owned(o)[k])
            &&& self.registry@[self.owned(o)[k]].owner == o
        } by {
            assert(pre.owned(o)[k] == self.owned(o)[k]);
            assert(pre.registry@.contains_key(pre.owned(o)[k]));
        }
    }

    /// What `buy_quote(buyer, dna, max_price)` returns in this state: the
    /// payment that buying the kitty needs, or why it cannot be bought.
    pub open spec fn buy_result(&self, buyer: u64, dna: [u8; 32], max_price: u64) -> Result<Sale, Error> {
        if !self.kitties().contains_key(dna) {
            Err(Error::NoKitty)
        } else {
            match self.kitties()[dna].price {
                None => Err(Error::NotForSale),
                Some(p) => if p > max_price {
                    Err(Error::MaxPriceTooLow)
                } else {
                    match self.transfer_result(self.kitties()[dna].owner, buyer, dna) {
                        Err(e) => Err(e),
                        Ok(_) => Ok(Sale { seller: self.kitties()[dna].owner, price: p }),
                    }
                },
            }
        }
    }

    /// What `do_buy_kitty(buyer, dna, max_price, paid)` returns in this state.
    pub open spec fn buy_outcome(&self, buyer: u64, dna: [u8; 32], max_price: u64, paid: bool) -> Result<(), Error> {
        match self.buy_result(buyer, dna, max_price) {
            Err(e) => Err(e),
            Ok(_) => if paid {
                Ok(())
            } else {
                Err(Error::PaymentFailed)
            },
        }
    }

    /// Checks that `buyer` may buy the kitty `kitty_id` for at most `max_price`
    /// and returns the payment that the purchase needs: the kitty's price, from
    /// the buyer to its current owner.
    ///
    /// Fails with `NoKitty`, `NotForSale` or `MaxPriceTooLow` when the kitty
    /// cannot be bought at that price, and with the error of a transfer from its
    /// owner to `buyer` when that transfer would fail.
    pub fn buy_quote(&self, buyer: u64, kitty_id: [u8; 32], max_price: u64) -> (r: Result<Sale, Error>)
        requires
            self.wf(),
        ensures
            r == self.buy_result(buyer, kitty_id, max_price),
    {
        proof {
            self.lemma_owner_lists_kitty(kitty_id);
        }
        let i = match self.find_kitty(&kitty_id) {
            Some(i) => i,
            None => return Err(Error::NoKitty),
        };
        let kitty = self.kitties[i];
        let price = match kitty.price {
            None => return Err(Error::NotForSale),
            Some(p) => p,
        };
        if price > max_price {
            return Err(Error::MaxPriceTooLow);
        }
        if kitty.owner == buyer {
            return Err(Error::TransferToSelf);
        }
        if self.owned_len(buyer) >= MAX_OWNED {
            return Err(Error::TooManyOwned);
        }
        Ok(Sale { seller: kitty.owner, price })
    }

    /// Completes the purchase of the kitty `kitty_id` by `buyer`; `paid` tells
    /// whether the ledger moved the price that `buy_quote` named from the buyer
    /// to the seller.
    ///
    /// Fails, changing nothing, with the error of `buy_quote`, or with
    /// `PaymentFailed` when the payment did not go through. On success the
    /// kitty belongs to `buyer` and is no longer for sale.
    pub fn do_buy_kitty(&mut self, buyer: u64, kitty_id: [u8; 32], max_price: u64, paid: bool) -> (r:
        Result<(), Error>)
        requires
            old(self).wf(),
        ensures
            final(self).wf(),
            r == old(self).buy_outcome(buyer, kitty_id, max_price, paid),
            r is Err ==> *final(self) == *old(self),
            r is Ok ==> {
                let sale = old(self).buy_result(buyer, kitty_id, max_price)->Ok_0;
                &&& Self::moved(*old(self), *final(self), sale.seller, buyer, kitty_id, None)
                &&& final(self).events() == old(self).events().push(
                    (Event::Sold { buyer: buyer, kitty_id: kitty_id, price: sale.price }),
                )
            },
    {
        let sale = match self.buy_quote(buyer, kitty_id, max_price) {
            Ok(sale) => sale,
            Err(e) => return Err(e),
        };
        if !paid {
            return Err(Error::PaymentFailed);
        }
        let i = match self.find_kitty(&kitty_id) {
            Some(i) => i,
            None => return Err(Error::NoKitty),
        };
        let pos = match self.find_owned(sale.seller, &kitty_id) {
            Some(pos) => pos,
            None => return Err(Error::InconsistentState),
        };
        self.commit_transfer(i, sale.seller, buyer, pos, kitty_id, None);
        self.deposit_event(Event::Sold { buyer, kitty_id, price: sale.price });
        Ok(())
    }

    /// `after` is `before` once `mint(owner, dna)` has succeeded.
    pub open spec fn minted(before: Pallet, after: Pallet, owner: u64, dna: [u8; 32]) -> bool {
        &&& !before.kitties().contains_key(dna)
        &&& after.kitties() == before.kitties().insert(dna, (Kitty { dna: dna, owner: owner, price: None }))
        &&& after.count() == before.count() + 1
        &&& after.owned(owner) == before.owned(owner).push(dna)
        &&& forall|o: u64| o != owner ==> after.owned(o) == before.owned(o)
        &&& after.events() == before.events().push((Event::Created { owner: owner, kitty_id: dna }))
    }

    /// The id that `create_kitty` would give a new kitty in context `ctx`.
    pub open spec fn next_dna(&self, ctx: BlockContext) -> [u8; 32] {
        dna_for(ctx, self.count() as u32)
    }

    /// The id for a new kitty in context `ctx`: the digest of the context's
    /// entropy together with the registry counter.
    pub fn gen_dna(&self, ctx: &BlockContext) -> (r: [u8; 32])
        ensures
            r == self.next_dna(*ctx),
    {
        dna_from(ctx, self.count_for_kitties)
    }

    /// Creates a kitty for the signer of `origin`, with an id drawn from the
    /// context's entropy and the registry counter, and returns that id.
    ///
    /// Fails, changing nothing, with `BadOrigin` for an unsigned call and
    /// otherwise as `mint` does for the generated id.
    pub fn create_kitty(&mut self, origin: Origin, ctx: &BlockContext) -> (r: Result<[u8; 32], Error>)
        requires
            old(self).wf(),
        ensures
            final(self).wf(),
            r is Err ==> *final(self) == *old(self),
            match signer_of(origin) {
                None => r == Err::<[u8; 32], Error>(Error::BadOrigin),
                Some(who) => {
                    let dna = old(self).next_dna(*ctx);
                    &&& (r is Ok <==> old(self).mint_result(who, dna) is Ok)
                    &&& r is Err ==> r->Err_0 == old(self).mint_result(who, dna)->Err_0
                    &&& r is Ok ==> r->Ok_0 == dna && Self::minted(*old(self), *final(self), who, dna)
                },
            },
    {
        let who = match ensure_signed(origin) {
            Ok(who) => who,
            Err(e) => return Err(e),
        };
        let dna = self.gen_dna(ctx);
        match self.mint(who, dna) {
            Ok(()) => Ok(dna),
            Err(e) => Err(e),
        }
    }

    /// Transfers the kitty `kitty_id` from the signer of `origin` to `to`, as
    /// `do_transfer` does; `BadOrigin` for an unsigned call.
    pub fn transfer(&mut self, origin: Origin, to: u64, kitty_id: [u8; 32]) -> (r: Result<(), Error>)
        requires
            old(self).wf(),
        ensures
            final(self).wf(),
            r is Err ==> *final(self) == *old(self),
            match signer_of(origin) {
                None => r == Err::<(), Error>(Error::BadOrigin),
                Some(from) => {
                    &&& r == old(self).transfer_result(from, to, kitty_id)
                    &&& r is Ok ==> Self::moved(
                        *old(self),
                        *final(self),
                        from,
                        to,
                        kitty_id,
                        old(self).kitties()[kitty_id].price,
                    )
                    &&& r is Ok ==> final(self).events() == old(self).events().push(
                        (Event::Transferred { from: from, to: to, kitty_id: kitty_id }),
                    )
                },
            },
    {
        let from = match ensure_signed(origin) {
            Ok(who) => who,
            Err(e) => return Err(e),
        };
        self.do_transfer(from, to, kitty_id)
    }

    /// Sets the price of the kitty `kitty_id` for the signer of `origin`, as
    /// `do_set_price` does; `BadOrigin` for an unsigned call.
    pub fn set_price(&mut self, origin: Origin, kitty_id: [u8; 32], price: Option<u64>) -> (r: Result<
        (),
        Error,
    >)
        requires
            old(self).wf(),
        ensures
            final(self).wf(),
            r is Err ==> *final(self) == *old(self),
            match signer_of(origin) {
                None => r == Err::<(), Error>(Error::BadOrigin),
                Some(from) => {
                    &&& r == old(self).set_price_result(from, kitty_id)
                    &&& r is Ok ==> final(self).kitties() == old(self).kitties().insert(
                        kitty_id,
                        (Kitty { dna: kitty_id, owner: from, price: price }),
                    )
                    &&& r is Ok ==> forall|o: u64| #[trigger] final(self).owned(o) == old(self).owned(o)
                    &&& r is Ok ==> final(self).events() == old(self).events().push(
                        (Event::PriceSet { owner: from, kitty_id: kitty_id, new_price: price }),
                    )
                },
            },
    {
        let from = match ensure_signed(origin) {
            Ok(who) => who,
            Err(e) => return Err(e),
        };
        self.do_set_price(from, kitty_id, price)
    }

    /// Completes a purchase by the signer of `origin`, as `do_buy_kitty` does;
    /// `BadOrigin` for an unsigned call.
    pub fn buy_kitty(&mut self, origin: Origin, kitty_id: [u8; 32], max_price: u64, paid: bool) -> (r:
        Result<(), Error>)
        requires
            old(self).wf(),
        ensures
            final(self).wf(),
            r is Err ==> *final(self) == *old(self),
            match signer_of(origin) {
                None => r == Err::<(), Error>(Error::BadOrigin),
                Some(buyer) => {
                    &&& r == old(self).buy_outcome(buyer, kitty_id, max_price, paid)
                    &&& r is Ok ==> Self::moved(
                        *old(self),
                        *final(self),
                        old(self).kitties()[kitty_id].owner,
                        buyer,
                        kitty_id,
                        None,
                    )
                    &&& r is Ok ==> final(self).events() == old(self).events().push(
                        (Event::Sold {
                            buyer: buyer,
                            kitty_id: kitty_id,
                            price: old(self).kitties()[kitty_id].price->Some_0,
                        }),
                    )
                },
            },
    {
        let buyer = match ensure_signed(origin) {
            Ok(who) => who,
            Err(e) => return Err(e),
        };
        self.do_buy_kitty(buyer, kitty_id, max_price, paid)
    }

    /// The kitty with id `kitty_id`, if it is registered.
    pub fn get_kitty(&self, kitty_id: &[u8; 32]) -> (r: Option<Kitty>)
        requires
            self.wf(),
        ensures
            r == (if self.kitties().contains_key(*kitty_id) {
                Some(self.kitties()[*kitty_id])
            } else {
                None
            }),
    {
        match self.find_kitty(kitty_id) {
            Some(i) => Some(self.kitties[i]),
            None => None,
        }
    }

    /// The ids that `who` holds; empty for an account that holds none.
    pub fn kitties_owned(&self, who: u64) -> (r: Vec<[u8; 32]>)
        ensures
            r@ == self.owned(who),
    {
        let mut r: Vec<[u8; 32]> = Vec::new();
        match self.kitties_owned.get(&who) {
            None => {},
            Some(list) => {
                let mut k: usize = 0;
                while k < list.len()
                    invariant
                        0 <= k <= list@.len(),
                        r@ == list@.subrange(0, k as int),
                    decreases list@.len() - k,
                {
                    r.push(list[k]);
                    k = k + 1;
                }
                assert(list@.subrange(0, list@.len() as int) =~= list@);
            },
        }
        r
    }

    /// The registry counter.
    pub fn count_for_kitties(&self) -> (r: u32)
        ensures
            r as nat == self.count(),
    {
        self.count_for_kitties
    }

    /// The ids of all registered kitties, each once.
    pub fn kitty_ids(&self) -> (r: Vec<[u8; 32]>)
        requires
            self.wf(),
        ensures
            r@.no_duplicates(),
            r@.len() == self.count(),
            forall|d: [u8; 32]| #[trigger] r@.contains(d) <==> self.kitties().contains_key(d),
    {
        let mut r: Vec<[u8; 32]> = Vec::new();
        let mut i: usize = 0;
        while i < self.kitties.len()
            invariant
                self.wf(),
                0 <= i <= self.kitties@.len(),
                r@.len() == i,
                forall|j: int| 0 <= j < i ==> #[trigger] r@[j] == self.kitties@[j].dna,
            decreases self.kitties@.len() - i,
        {
            r.push(self.kitties[i].dna);
            i = i + 1;
        }
        assert forall|a: int, b: int| 0 <= a < r@.len() && 0 <= b < r@.len() && a != b implies r@[a]
            != r@[b] by {
            assert(self.kitties@[a].dna != self.kitties@[b].dna);
        }
        assert forall|d: [u8; 32]| #[trigger] r@.contains(d) <==> self.kitties().contains_key(d) by {
            if r@.contains(d) {
                let a = choose|a: int| 0 <= a < r@.len() && r@[a] == d;
                assert(self.registry@.contains_key(self.kitties@[a].dna));
            }
            if self.kitties().contains_key(d) {
                let a = choose|a: int| 0 <= a < self.kitties@.len() && #[trigger] self.kitties@[a].dna == d;
                assert(r@[a] == d);
            }
        }
        r
    }

    /// The most recent event, if any call has succeeded yet.
    pub fn last_event(&self) -> (r: Option<Event>)
        ensures
            r == (if self.events().len() == 0 {
                None
            } else {
                Some(self.events().last())
            }),
    {
        if self.events.len() == 0 {
            None
        } else {
            Some(self.events[self.events.len() - 1])
        }
    }

    /// The events reported so far, oldest first.
    pub fn event_log(&self) -> (r: &Vec<Event>)
        ensures
            r@ == self.events(),
    {
        &self.events
    }

    /// In a well-formed state a registered kitty's id stands in its owner's list.
    proof fn lemma_owner_lists_kitty(&self, dna: [u8; 32])
        requires
            self.wf(),
        ensures
            self.kitties().contains_key(dna) ==> self.owned(self.kitties()[dna].owner).contains(dna),
    {
    }
}

/// Every well-formed state keeps owners and lists consistent: a registered
/// kitty's id stands in its owner's list, exactly once, and in no other list;
/// every id in a list belongs to a registered kitty of that list's owner.
/// `Pallet::new` gives a well-formed state and every operation keeps it so.
pub proof fn lemma_ownership_consistent(p: &Pallet)
    requires
        p.wf(),
    ensures
        forall|dna: [u8; 32], o: u64|
            #![trigger p.owned(o).contains(dna)]
            p.kitties().contains_key(dna) ==> (p.owned(o).contains(dna) <==> o == p.kitties()[dna].owner),
        forall|o: u64| #[trigger] p.owned(o).no_duplicates(),
        forall|o: u64, k: int|
            0 <= k < p.owned(o).len() ==> p.kitties().contains_key(#[trigger] p.owned(o)[k])
                && p.kitties()[p.owned(o)[k]].owner == o,
{
    assert forall|dna: [u8; 32], o: u64| #![trigger p.owned(o).contains(dna)]
        p.kitties().contains_key(dna) implies (p.owned(o).contains(dna) <==> o == p.kitties()[dna].owner) by {
        if p.owned(o).contains(dna) {
            let k = choose|k: int| 0 <= k < p.owned(o).len() && p.owned(o)[k] == dna;
            assert(p.kitties().contains_key(p.owned(o)[k]));
        }
    }
    assert forall|o: u64| #[trigger] p.owned(o).no_duplicates() by {
        assert(p.owned(o).len() <= MAX_OWNED);
    }
}

/// Minting for an owner who already holds `MAX_OWNED` kitties, and moving a
/// kitty to such an owner, fail with `TooManyOwned` when nothing else is wrong.
pub proof fn lemma_capacity_enforced(p: &Pallet, owner: u64, dna: [u8; 32], from: u64, kitty_id: [u8; 32])
    requires
        p.wf(),
        p.owned(owner).len() >= MAX_OWNED,
    ensures
        !p.kitties().contains_key(dna) && p.count() < u32::MAX as nat ==> p.mint_result(owner, dna)
            == Err::<(), Error>(Error::TooManyOwned),
        from != owner && p.kitties().contains_key(kitty_id) && p.kitties()[kitty_id].owner == from
            ==> p.transfer_result(from, owner, kitty_id) == Err::<(), Error>(Error::TooManyOwned),
{
    lemma_ownership_consistent(p);
    if from != owner && p.kitties().contains_key(kitty_id) && p.kitties()[kitty_id].owner == from {
        assert(p.owned(from).contains(kitty_id));
    }
}

/// A transfer from an account to itself fails with `TransferToSelf`, whether or
/// not the kitty exists and whoever owns it.
pub proof fn lemma_self_transfer_rejected(p: &Pallet, who: u64, kitty_id: [u8; 32])
    ensures
        p.transfer_result(who, who, kitty_id) == Err::<(), Error>(Error::TransferToSelf),
{
}

/// A purchase by an account that does not own the kitty and has room for one
/// more succeeds exactly when the kitty exists, has a price `p` with
/// `p <= max_price`, and the payment went through; the payment asked for is
/// `p`, from the buyer to the kitty's owner.
pub proof fn lemma_sale_correctness(p: &Pallet, buyer: u64, kitty_id: [u8; 32], max_price: u64, paid: bool)
    requires
        p.wf(),
        p.kitties().contains_key(kitty_id) ==> p.kitties()[kitty_id].owner != buyer,
        p.owned(buyer).len() < MAX_OWNED,
    ensures
        p.buy_outcome(buyer, kitty_id, max_price, paid) is Ok <==> {
            &&& p.kitties().contains_key(kitty_id)
            &&& p.kitties()[kitty_id].price is Some
            &&& p.kitties()[kitty_id].price->Some_0 <= max_price
            &&& paid
        },
        p.buy_result(buyer, kitty_id, max_price) is Ok ==> p.buy_result(buyer, kitty_id, max_price)
            == Ok::<Sale, Error>(
            (Sale { seller: p.kitties()[kitty_id].owner, price: p.kitties()[kitty_id].price->Some_0 }),
        ),
{
    lemma_ownership_consistent(p);
    if p.kitties().contains_key(kitty_id) {
        assert(p.owned(p.kitties()[kitty_id].owner).contains(kitty_id));
    }
}

/// Removing the entry at `pos` by moving the last entry there keeps a list
/// free of duplicates and takes out exactly the value that stood at `pos`.
proof fn lemma_swap_remove(s: Seq<[u8; 32]>, pos: int)
    requires
        s.no_duplicates(),
        0 <= pos < s.len(),
    ensures
        ({
            let r = s.update(pos, s.last()).drop_last();
            &&& r.len() + 1 == s.len()
            &&& r.no_duplicates()
            &&& forall|d: [u8; 32]| #[trigger] r.contains(d) <==> (s.contains(d) && d != s[pos])
        }),
{
    let r = s.update(pos, s.last()).drop_last();
    let last = s.len() - 1;
    assert forall|a: int, b: int| 0 <= a < r.len() && 0 <= b < r.len() && a != b implies r[a] != r[b] by {
        let sa = if a == pos { last } else { a };
        let sb = if b == pos { last } else { b };
        assert(r[a] == s[sa]);
        assert(r[b] == s[sb]);
    }
    assert forall|d: [u8; 32]| #[trigger] r.contains(d) <==> (s.contains(d) && d != s[pos]) by {
        if r.contains(d) {
            let a = choose|a: int| 0 <= a < r.len() && r[a] == d;
            let sa = if a == pos { last } else { a };
            assert(s[sa] == d);
        }
        if s.contains(d) && d != s[pos] {
            let a = choose|a: int| 0 <= a < s.len() && s[a] == d;
            if a == last {
                assert(r[pos] == d);
            } else {
                assert(r[a] == d);
            }
        }
    }
}

} // verus!
