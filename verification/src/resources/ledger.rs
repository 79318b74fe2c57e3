//! The economy ledger: an amount per kind of resource.

use vstd::prelude::*;

verus! {

/// The kinds of resource that the player owns.
#[derive(Copy, Clone, Debug, PartialEq, Eq, Hash, PartialOrd, Ord, Structural)]
pub enum OwnedResource {
    Wood,
    Metal,
    Money,
}

impl OwnedResource {
    /// The name of the kind, as it is shown to the player.
    pub fn to_string(&self) -> (s: String)
        ensures
            s@ == match self {
                OwnedResource::Metal => "Metal"@,
                OwnedResource::Wood => "Wood"@,
                OwnedResource::Money => "Money"@,
            },
    {
        match self {
            OwnedResource::Metal => "Metal".to_owned(),
            OwnedResource::Wood => "Wood".to_owned(),
            OwnedResource::Money => "Money".to_owned(),
        }
    }
}

/// Every kind of resource, in the order in which the ledger walks them.
pub fn all_resources() -> (r: [OwnedResource; 3])
    ensures
        r@ == seq![OwnedResource::Wood, OwnedResource::Metal, OwnedResource::Money],
{
    let r = [OwnedResource::Wood, OwnedResource::Metal, OwnedResource::Money];
    assert(r@ =~= seq![OwnedResource::Wood, OwnedResource::Metal, OwnedResource::Money]);
    r
}

/// The amount of `kind` in `m`: what is entered there, and zero where nothing is.
pub open spec fn balance(m: Map<OwnedResource, int>, kind: OwnedResource) -> int {
    if m.contains_key(kind) {
        m[kind]
    } else {
        0
    }
}

/// The ledger holds every amount that `cost` asks for: for each kind with a
/// positive amount in `cost`, at least that amount.
pub open spec fn affordable(ledger: Map<OwnedResource, int>, cost: Map<OwnedResource, int>) -> bool {
    forall|kind: OwnedResource| balance(cost, kind) > 0 ==> balance(ledger, kind) >= #[trigger] balance(cost, kind)
}

/// The ledger after `cost` has been paid: every kind is entered, lowered by
/// its amount in `cost`.
pub open spec fn paid(ledger: Map<OwnedResource, int>, cost: Map<OwnedResource, int>) -> Map<OwnedResource, int> {
    Map::new(|kind: OwnedResource| true, |kind: OwnedResource| balance(ledger, kind) - balance(cost, kind))
}

/// The ledger after `amount` of `kind` has been received.
pub open spec fn received(ledger: Map<OwnedResource, int>, kind: OwnedResource, amount: int) -> Map<
    OwnedResource,
    int,
> {
    ledger.insert(kind, balance(ledger, kind) + amount)
}

/// The ledger after every amount of `gain` has been received.
pub open spec fn received_all(ledger: Map<OwnedResource, int>, gain: Map<OwnedResource, int>) -> Map<
    OwnedResource,
    int,
> {
    Map::new(
        |kind: OwnedResource| ledger.contains_key(kind) || gain.contains_key(kind),
        |kind: OwnedResource|
            if gain.contains_key(kind) {
                balance(ledger, kind) + gain[kind]
            } else {
                ledger[kind]
            },
    )
}

/// Every amount of `m` fits the machine's 64-bit range.
pub open spec fn in_range(m: Map<OwnedResource, int>) -> bool {
    forall|kind: OwnedResource| m.contains_key(kind) ==> i64::MIN <= #[trigger] m[kind] <= i64::MAX
}

/// An amount per kind of resource. A kind may be entered or not; one that
/// is not entered counts as zero.
#[derive(Copy, Clone, Debug, PartialEq, Eq, Structural)]
pub struct OwnedResources {
    wood: Option<i64>,
    metal: Option<i64>,
    money: Option<i64>,
}

impl View for OwnedResources {
    type V = Map<OwnedResource, int>;

    closed spec fn view(&self) -> Map<OwnedResource, int> {
        Map::new(|kind: OwnedResource| self.entry(kind) is Some, |kind: OwnedResource| self.entry(kind)->0 as int)
    }
}

impl Default for OwnedResources {
    /// A ledger without entries.
    fn default() -> (r: Self)
        ensures
            r@ == Map::<OwnedResource, int>::empty(),
    {
        OwnedResources::new()
    }
}

impl OwnedResources {
    /// What is entered for `kind`, if anything.
    closed spec fn entry(&self, kind: OwnedResource) -> Option<i64> {
        match kind {
            OwnedResource::Wood => self.wood,
            OwnedResource::Metal => self.metal,
            OwnedResource::Money => self.money,
        }
    }

    /// A ledger without entries.
    pub closed spec fn spec_new() -> Self {
        OwnedResources { wood: None, metal: None, money: None }
    }

    /// The same ledger with `amt` entered for `o`.
    pub closed spec fn spec_with(self, o: OwnedResource, amt: i64) -> Self {
        match o {
            OwnedResource::Wood => OwnedResources { wood: Some(amt), ..self },
            OwnedResource::Metal => OwnedResources { metal: Some(amt), ..self },
            OwnedResource::Money => OwnedResources { money: Some(amt), ..self },
        }
    }

    /// A ledger without entries.
    #[verifier::when_used_as_spec(spec_new)]
    pub fn new() -> (r: Self)
        ensures
            r == Self::spec_new(),
            r@ == Map::<OwnedResource, int>::empty(),
    {
        let r = OwnedResources { wood: None, metal: None, money: None };
        assert(r@ =~= Map::<OwnedResource, int>::empty());
        r
    }

    /// The same ledger with `amt` entered for `o`.
    #[verifier::when_used_as_spec(spec_with)]
    pub fn with(self, o: OwnedResource, amt: i64) -> (r: Self)
        ensures
            r == self.spec_with(o, amt),
            r@ == self@.insert(o, amt as int),
    {
        let mut r = self;
        r.set(o, amt);
        r
    }

    /// The amount entered for `o`, if one is.
    pub fn get(&self, o: OwnedResource) -> (r: Option<i64>)
        ensures
            match r {
                Some(v) => self@.contains_key(o) && self@[o] == v,
                None => !self@.contains_key(o),
            },
    {
        match o {
            OwnedResource::Wood => self.wood,
            OwnedResource::Metal => self.metal,
            OwnedResource::Money => self.money,
        }
    }

    /// The amount of `o`: what is entered, and zero where nothing is.
    pub fn amount(&self, o: OwnedResource) -> (r: i64)
        ensures
            r == balance(self@, o),
    {
        match self.get(o) {
            Some(v) => v,
            None => 0,
        }
    }

    /// Enters `amt` for `o`.
    fn set(&mut self, o: OwnedResource, amt: i64)
        ensures
            *final(self) == old(self).spec_with(o, amt),
            final(self)@ == old(self)@.insert(o, amt as int),
    {
        match o {
            OwnedResource::Wood => {
                self.wood = Some(amt);
            },
            OwnedResource::Metal => {
                self.metal = Some(amt);
            },
            OwnedResource::Money => {
                self.money = Some(amt);
            },
        }
        assert(self@ =~= old(self)@.insert(o, amt as int));
    }

    /// Whether the ledger holds every amount that `other` asks for. An
    /// amount of zero or less asks for nothing.
    pub fn can_pay(&self, other: &OwnedResources) -> (r: bool)
        ensures
            r == affordable(self@, other@),
    {
        let kinds = all_resources();
        let mut i: usize = 0;
        while i < 3
            invariant
                i <= 3,
                kinds@ == seq![OwnedResource::Wood, OwnedResource::Metal, OwnedResource::Money],
                forall|j: int|
                    0 <= j < i && balance(other@, kinds@[j]) > 0 ==> balance(self@, kinds@[j]) >= #[trigger] balance(
                        other@,
                        kinds@[j],
                    ),
            decreases 3 - i,
        {
            let o = kinds[i];
            let other_amt = other.amount(o);
            if other_amt > 0 {
                let my_amt = self.amount(o);
                if my_amt < other_amt {
                    assert(balance(other@, o) > 0 && balance(self@, o) < balance(other@, o));
                    return false;
                }
            }
            i += 1;
        }
        proof {
            assert forall|kind: OwnedResource| balance(other@, kind) > 0 implies balance(self@, kind)
                >= #[trigger] balance(other@, kind) by {
                let j = match kind {
                    OwnedResource::Wood => 0int,
                    OwnedResource::Metal => 1int,
                    OwnedResource::Money => 2int,
                };
                assert(kinds@[j] == kind);
            }
        }
        true
    }

    /// Whether every amount of the ledger, lowered by its amount in `other`,
    /// fits the machine's 64-bit range.
    pub fn pay_fits(&self, other: &OwnedResources) -> (r: bool)
        ensures
            r == in_range(paid(self@, other@)),
    {
        let kinds = all_resources();
        let mut i: usize = 0;
        while i < 3
            invariant
                i <= 3,
                kinds@ == seq![OwnedResource::Wood, OwnedResource::Metal, OwnedResource::Money],
                forall|j: int| 0 <= j < i ==> i64::MIN <= #[trigger] paid(self@, other@)[kinds@[j]] <= i64::MAX,
            decreases 3 - i,
        {
            let o = kinds[i];
            if self.amount(o).checked_sub(other.amount(o)).is_none() {
                assert(paid(self@, other@).contains_key(o));
                assert(!(i64::MIN <= paid(self@, other@)[o] <= i64::MAX));
                return false;
            }
            i += 1;
        }
        proof {
            assert forall|kind: OwnedResource| paid(self@, other@).contains_key(kind) implies i64::MIN
                <= #[trigger] paid(self@, other@)[kind] <= i64::MAX by {
                let j = match kind {
                    OwnedResource::Wood => 0int,
                    OwnedResource::Metal => 1int,
                    OwnedResource::Money => 2int,
                };
                assert(kinds@[j] == kind);
            }
        }
        true
    }

    /// Lowers every kind by its amount in `other`, whether or not the ledger
    /// holds that much. Afterwards every kind is entered.
    pub fn pay(&mut self, other: &OwnedResources)
        requires
            in_range(paid(old(self)@, other@)),
        ensures
            final(self)@ == paid(old(self)@, other@),
    {
        let kinds = all_resources();
        let mut i: usize = 0;
        while i < 3
            invariant
                i <= 3,
                kinds@ == seq![OwnedResource::Wood, OwnedResource::Metal, OwnedResource::Money],
                in_range(paid(old(self)@, other@)),
                forall|kind: OwnedResource|
                    self@.contains_key(kind) == (old(self)@.contains_key(kind) || exists|j: int|
                        0 <= j < i && kinds@[j] == kind),
                forall|j: int|
                    0 <= j < 3 ==> balance(self@, #[trigger] kinds@[j]) == if j < i {
                        paid(old(self)@, other@)[kinds@[j]]
                    } else {
                        balance(old(self)@, kinds@[j])
                    },
            decreases 3 - i,
        {
            let o = kinds[i];
            assert(paid(old(self)@, other@).contains_key(o));
            assert(i64::MIN <= paid(old(self)@, other@)[o] <= i64::MAX);
            assert(balance(self@, kinds@[i as int]) == balance(old(self)@, o));
            let left = self.amount(o) - other.amount(o);
            let ghost before = self@;
            self.set(o, left);
            proof {
                assert forall|kind: OwnedResource|
                    self@.contains_key(kind) == (old(self)@.contains_key(kind) || exists|j: int|
                        0 <= j < i + 1 && kinds@[j] == kind) by {
                    if before.contains_key(kind) && !old(self)@.contains_key(kind) {
                        let j = choose|j: int| 0 <= j < i && kinds@[j] == kind;
                        assert(0 <= j < i + 1 && kinds@[j] == kind);
                    }
                    if kind == o {
                        assert(kinds@[i as int] == kind);
                    }
                }
            }
            i += 1;
        }
        proof {
            assert forall|kind: OwnedResource| self@.contains_key(kind) && self@[kind] == paid(
                old(self)@,
                other@,
            )[kind] by {
                let j = match kind {
                    OwnedResource::Wood => 0int,
                    OwnedResource::Metal => 1int,
                    OwnedResource::Money => 2int,
                };
                assert(kinds@[j] == kind);
                assert(balance(self@, kinds@[j]) == paid(old(self)@, other@)[kinds@[j]]);
            }
            assert(self@ =~= paid(old(self)@, other@));
        }
    }

    /// Whether the amount of `kind`, raised by `amount`, fits the machine's
    /// 64-bit range.
    pub fn receive_fits(&self, kind: OwnedResource, amount: i64) -> (r: bool)
        ensures
            r == (i64::MIN <= balance(self@, kind) + amount <= i64::MAX),
    {
        self.amount(kind).checked_add(amount).is_some()
    }

    /// Raises the amount of `kind` by `amount`.
    pub fn receive(&mut self, kind: OwnedResource, amount: i64)
        requires
            i64::MIN <= balance(old(self)@, kind) + amount <= i64::MAX,
        ensures
            final(self)@ == received(old(self)@, kind, amount as int),
    {
        let sum = self.amount(kind) + amount;
        self.set(kind, sum);
    }

    /// Whether every amount of the ledger, raised by what `all` enters for
    /// its kind, fits the machine's 64-bit range.
    pub fn receive_all_fits(&self, all: &OwnedResources) -> (r: bool)
        ensures
            r == in_range(received_all(self@, all@)),
    {
        let kinds = all_resources();
        let mut i: usize = 0;
        while i < 3
            invariant
                i <= 3,
                kinds@ == seq![OwnedResource::Wood, OwnedResource::Metal, OwnedResource::Money],
                forall|j: int|
                    0 <= j < i && received_all(self@, all@).contains_key(kinds@[j]) ==> i64::MIN
                        <= #[trigger] received_all(self@, all@)[kinds@[j]] <= i64::MAX,
            decreases 3 - i,
        {
            let o = kinds[i];
            match all.get(o) {
                Some(gain) => {
                    if self.amount(o).checked_add(gain).is_none() {
                        assert(received_all(self@, all@).contains_key(o));
                        assert(!(i64::MIN <= received_all(self@, all@)[o] <= i64::MAX));
                        return false;
                    }
                },
                None => {},
            }
            i += 1;
        }
        proof {
            assert forall|kind: OwnedResource| received_all(self@, all@).contains_key(kind) implies i64::MIN
                <= #[trigger] received_all(self@, all@)[kind] <= i64::MAX by {
                let j = match kind {
                    OwnedResource::Wood => 0int,
                    OwnedResource::Metal => 1int,
                    OwnedResource::Money => 2int,
                };
                assert(kinds@[j] == kind);
            }
        }
        true
    }

    /// Raises every kind that `all` enters by its amount there.
    pub fn receive_all(&mut self, all: &OwnedResources)
        requires
            in_range(received_all(old(self)@, all@)),
        ensures
            final(self)@ == received_all(old(self)@, all@),
    {
        let kinds = all_resources();
        let mut i: usize = 0;
        while i < 3
            invariant
                i <= 3,
                kinds@ == seq![OwnedResource::Wood, OwnedResource::Metal, OwnedResource::Money],
                in_range(received_all(old(self)@, all@)),
                forall|j: int|
                    0 <= j < 3 ==> self@.contains_key(#[trigger] kinds@[j]) == if j < i {
                        received_all(old(self)@, all@).contains_key(kinds@[j])
                    } else {
                        old(self)@.contains_key(kinds@[j])
                    },
                forall|j: int|
                    0 <= j < 3 && self@.contains_key(#[trigger] kinds@[j]) ==> self@[kinds@[j]] == if j < i {
                        received_all(old(self)@, all@)[kinds@[j]]
                    } else {
                        old(self)@[kinds@[j]]
                    },
            decreases 3 - i,
        {
            let o = kinds[i];
            assert(kinds@[i as int] == o);
            match all.get(o) {
                Some(gain) => {
                    assert(received_all(old(self)@, all@).contains_key(o));
                    assert(i64::MIN <= received_all(old(self)@, all@)[o] <= i64::MAX);
                    assert(balance(self@, o) == balance(old(self)@, o));
                    let sum = self.amount(o) + gain;
                    self.set(o, sum);
                },
                None => {},
            }
            i += 1;
        }
        proof {
            assert forall|kind: OwnedResource|
                self@.contains_key(kind) == received_all(old(self)@, all@).contains_key(kind) && (self@.contains_key(
                    kind,
                ) ==> self@[kind] == received_all(old(self)@, all@)[kind]) by {
                let j = match kind {
                    OwnedResource::Wood => 0int,
                    OwnedResource::Metal => 1int,
                    OwnedResource::Money => 2int,
                };
                assert(kinds@[j] == kind);
            }
            assert(self@ =~= received_all(old(self)@, all@));
        }
    }
}

/// The economy law. After any sequence of payments and receipts, `can_pay`
/// depends on the balances alone: a cost is affordable if every kind that
/// it asks a positive amount of has at least that balance, and it is not if
/// the balance of one such kind is smaller. In particular a receipt that
/// lifts the last short balance to the cost makes the cost affordable, and
/// receiving never makes an affordable cost unaffordable.
pub proof fn lemma_can_pay_by_balance(
    ledger: Map<OwnedResource, int>,
    cost: Map<OwnedResource, int>,
    kind: OwnedResource,
    amount: int,
)
    ensures
        (forall|k: OwnedResource| balance(cost, k) > 0 ==> balance(ledger, k) >= #[trigger] balance(cost, k))
            ==> affordable(ledger, cost),
        (exists|k: OwnedResource| #[trigger] balance(cost, k) > 0 && balance(ledger, k) < balance(cost, k))
            ==> !affordable(ledger, cost),
        balance(received(ledger, kind, amount), kind) == balance(ledger, kind) + amount,
        forall|k: OwnedResource| k != kind ==> #[trigger] balance(received(ledger, kind, amount), k) == balance(ledger, k),
        amount >= 0 && affordable(ledger, cost) ==> affordable(received(ledger, kind, amount), cost),
{
    if amount >= 0 && affordable(ledger, cost) {
        let after = received(ledger, kind, amount);
        assert forall|k: OwnedResource| balance(cost, k) > 0 implies balance(after, k) >= #[trigger] balance(
            cost,
            k,
        ) by {
            assert(balance(ledger, k) >= balance(cost, k));
        }
    }
}

} // verus!
