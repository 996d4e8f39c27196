//! Traders: ships that carry goods between markets.

use vstd::prelude::*;

use crate::by_id::ById;
use crate::ids::{CommodityId, Money, Owner, PlayerId, Quantity, ShipId, SystemId, Tick, TraderId};

verus! {

/// Where a trader is.
#[derive(Debug, Clone, Copy, PartialEq, Eq, Structural)]
pub enum TraderLocation {
    /// At a station.
    Docked(SystemId),
    /// Departed `origin` at `departure`, arriving at `dest` at `arrival`.
    InTransit { origin: SystemId, dest: SystemId, departure: Tick, arrival: Tick },
    /// Out of action until `respawn`.
    Destroyed { respawn: Tick },
}

/// A trader.
#[derive(Debug, Clone)]
pub struct Trader {
    /// Stable handle.
    pub id: TraderId,
    pub ship: ShipId,
    pub capital: Money,
    /// Units held of each commodity.
    pub cargo: ById<Quantity>,
    pub location: TraderLocation,
    pub owner: Owner,
}

/// A [`Trader`] as a mathematical value.
#[verifier::ext_equal]
pub struct TraderView {
    pub id: TraderId,
    pub ship: ShipId,
    pub capital: Money,
    pub cargo: Map<CommodityId, Quantity>,
    pub location: TraderLocation,
    pub owner: Owner,
}

impl View for Trader {
    type V = TraderView;

    open spec fn view(&self) -> TraderView {
        TraderView {
            id: self.id,
            ship: self.ship,
            capital: self.capital,
            cargo: self.cargo@,
            location: self.location,
            owner: self.owner,
        }
    }
}

/// The views of a list of traders.
pub open spec fn trader_views(traders: Seq<Trader>) -> Seq<TraderView> {
    Seq::new(traders.len(), |i: int| traders[i]@)
}

/// The units of `c` in a hold.
pub open spec fn held(cargo: Map<CommodityId, Quantity>, c: CommodityId) -> Quantity {
    if cargo.contains_key(c) {
        cargo[c]
    } else {
        0
    }
}

/// A hold after `c` is set to `left` units; nothing is kept of a good that ran out.
pub open spec fn with_units(
    cargo: Map<CommodityId, Quantity>,
    c: CommodityId,
    left: Quantity,
) -> Map<CommodityId, Quantity> {
    if left == 0 {
        cargo.remove(c)
    } else {
        cargo.insert(c, left)
    }
}

impl TraderView {
    /// A trader with an empty hold, docked at `at`.
    pub open spec fn fresh(
        id: TraderId,
        ship: ShipId,
        capital: Money,
        at: SystemId,
        owner: Owner,
    ) -> TraderView {
        TraderView {
            id,
            ship,
            capital,
            cargo: Map::empty(),
            location: TraderLocation::Docked(at),
            owner,
        }
    }
}

impl Trader {
    /// A trader of the built-in AI, docked at `at`.
    pub fn new(id: TraderId, ship: ShipId, capital: Money, at: SystemId) -> (t: Self)
        ensures
            t@ == TraderView::fresh(id, ship, capital, at, Owner::Npc),
    {
        Trader {
            id,
            ship,
            capital,
            cargo: ById::new(),
            location: TraderLocation::Docked(at),
            owner: Owner::Npc,
        }
    }

    /// A player's trader, docked at `at`.
    pub fn owned(
        id: TraderId,
        ship: ShipId,
        capital: Money,
        at: SystemId,
        player: PlayerId,
    ) -> (t: Self)
        ensures
            t@ == TraderView::fresh(id, ship, capital, at, Owner::Player(player)),
    {
        Trader {
            id,
            ship,
            capital,
            cargo: ById::new(),
            location: TraderLocation::Docked(at),
            owner: Owner::Player(player),
        }
    }

    /// Whether a player owns this trader.
    pub fn is_player(&self) -> (b: bool)
        ensures
            b == (self.owner is Player),
    {
        match self.owner {
            Owner::Player(_) => true,
            Owner::Npc => false,
        }
    }

    /// The units of `c` in the hold.
    pub fn held(&self, c: CommodityId) -> (q: Quantity)
        ensures
            q == held(self@.cargo, c),
    {
        match self.cargo.get(&c) {
            Some(q) => *q,
            None => 0,
        }
    }

    /// Set the units of `c` in the hold, dropping the entry where none are left.
    pub fn set_held(&mut self, c: CommodityId, left: Quantity)
        ensures
            final(self)@ == (TraderView {
                cargo: with_units(old(self)@.cargo, c, left),
                ..old(self)@
            }),
    {
        if left == 0 {
            self.cargo.remove(&c);
        } else {
            self.cargo.insert(c, left);
        }
    }
}

/// What is put in a hold is what is read back; every other good is as it was, and a good
/// that ran out leaves no entry.
pub proof fn lemma_hold_reads_back(
    cargo: Map<CommodityId, Quantity>,
    c: CommodityId,
    left: Quantity,
    d: CommodityId,
)
    ensures
        held(with_units(cargo, c, left), c) == left,
        with_units(cargo, c, left).dom().contains(c) <==> left > 0,
        d != c ==> held(with_units(cargo, c, left), d) == held(cargo, d),
        d != c ==> (with_units(cargo, c, left).dom().contains(d) <==> cargo.dom().contains(d)),
{
}

/// A hold holds what its entries say, and nothing of a good without one.
pub proof fn lemma_hold_is_its_entries(cargo: Map<CommodityId, Quantity>, c: CommodityId)
    ensures
        cargo.dom().contains(c) ==> held(cargo, c) == cargo[c],
        !cargo.dom().contains(c) ==> held(cargo, c) == 0,
{
}

/// A new trader has what it was given and an empty hold, and is docked where it was asked
/// for.
pub proof fn lemma_fresh_trader(
    id: TraderId,
    ship: ShipId,
    capital: Money,
    at: SystemId,
    owner: Owner,
    c: CommodityId,
)
    ensures
        ({
            let t = TraderView::fresh(id, ship, capital, at, owner);
            &&& t.id == id && t.ship == ship && t.capital == capital && t.owner == owner
            &&& t.location == TraderLocation::Docked(at)
            &&& held(t.cargo, c) == 0
            &&& !t.cargo.dom().contains(c)
        }),
{
}

} // verus!
