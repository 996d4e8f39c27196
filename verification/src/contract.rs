//! Contracts: missions layered on the living galaxy.
//!
//! A [`Contract`] is a job posted at an `origin` station: reach its `destination`
//! by a `deadline` and satisfy its [`ContractKind`], for a `reward`.

use vstd::prelude::*;

use crate::ids::{CommodityId, ContractId, Money, PlayerId, Quantity, SystemId, Tick, TraderId};

verus! {

/// What a contract asks for, checked at the destination.
#[derive(Debug, Clone, Copy, PartialEq, Eq, Structural)]
pub enum ContractKind {
    /// Deliver `quantity` of `commodity`, consumed from the hold on completion.
    Delivery { commodity: CommodityId, quantity: Quantity },
    /// Carry a parcel to the destination: no goods, just the trip.
    Courier,
    /// Destroy `target` pirates while holding the contract; `progress` counts them.
    Bounty { target: u32, progress: u32 },
}

/// Where a contract is in its lifecycle. Fulfilled and expired contracts leave the
/// board, so only the two live states exist.
#[derive(Debug, Clone, Copy, PartialEq, Eq, Structural)]
pub enum ContractState {
    /// On the board, for any player to accept.
    Open,
    /// Claimed by a player's trader, which must complete it before the deadline.
    Accepted { player: PlayerId, trader: TraderId },
}

/// A mission on the board.
#[derive(Debug, Clone, Copy, PartialEq, Eq, Structural)]
pub struct Contract {
    /// Stable handle.
    pub id: ContractId,
    /// What the contract asks for.
    pub kind: ContractKind,
    /// Where the job must be completed or claimed.
    pub destination: SystemId,
    /// Where the contract is posted.
    pub origin: SystemId,
    /// Credits paid on completion.
    pub reward: Money,
    /// The last tick on which the job can be completed.
    pub deadline: Tick,
    /// Lifecycle state.
    pub state: ContractState,
}

impl Contract {
    /// Whether the contract is open.
    pub open spec fn spec_is_open(self) -> bool {
        self.state is Open
    }

    /// Whether the contract is open (available to accept).
    pub fn is_open(&self) -> (b: bool)
        ensures
            b == self.spec_is_open(),
    {
        match self.state {
            ContractState::Open => true,
            ContractState::Accepted { .. } => false,
        }
    }

    /// The `(player, trader)` holding this contract.
    pub open spec fn spec_holder(self) -> Option<(PlayerId, TraderId)> {
        match self.state {
            ContractState::Accepted { player, trader } => Some((player, trader)),
            ContractState::Open => None,
        }
    }

    /// The `(player, trader)` holding this contract, if accepted.
    pub fn holder(&self) -> (h: Option<(PlayerId, TraderId)>)
        ensures
            h == self.spec_holder(),
    {
        match self.state {
            ContractState::Accepted { player, trader } => Some((player, trader)),
            ContractState::Open => None,
        }
    }

    /// The trader holding this contract.
    pub open spec fn spec_held_by(self) -> Option<TraderId> {
        match self.state {
            ContractState::Accepted { player, trader } => Some(trader),
            ContractState::Open => None,
        }
    }

    /// The trader holding this contract, if accepted.
    pub fn held_by(&self) -> (t: Option<TraderId>)
        ensures
            t == self.spec_held_by(),
    {
        match self.state {
            ContractState::Accepted { trader, .. } => Some(trader),
            ContractState::Open => None,
        }
    }

    /// The `(commodity, quantity)` a delivery requires.
    pub open spec fn spec_cargo(self) -> Option<(CommodityId, Quantity)> {
        match self.kind {
            ContractKind::Delivery { commodity, quantity } => Some((commodity, quantity)),
            _ => None,
        }
    }

    /// For a delivery contract, the `(commodity, quantity)` it requires; `None` for
    /// the other kinds, which carry no goods.
    pub fn cargo(&self) -> (c: Option<(CommodityId, Quantity)>)
        ensures
            c == self.spec_cargo(),
    {
        match self.kind {
            ContractKind::Delivery { commodity, quantity } => Some((commodity, quantity)),
            ContractKind::Courier => None,
            ContractKind::Bounty { .. } => None,
        }
    }

    /// Whether the kind's completion condition is met.
    pub open spec fn spec_condition_met(self, held_qty: Quantity) -> bool {
        match self.kind {
            ContractKind::Delivery { commodity, quantity } => held_qty >= quantity,
            ContractKind::Courier => true,
            ContractKind::Bounty { target, progress } => progress >= target,
        }
    }

    /// Whether the kind's completion condition is met, given the holding trader's
    /// held quantity of the delivery good. Location and deadline are the caller's.
    pub fn condition_met(&self, held_qty: Quantity) -> (b: bool)
        ensures
            b == self.spec_condition_met(held_qty),
    {
        match self.kind {
            ContractKind::Delivery { quantity, .. } => held_qty >= quantity,
            ContractKind::Courier => true,
            ContractKind::Bounty { target, progress } => progress >= target,
        }
    }
}

/// A contract is open just while nobody holds it, and its holder is the trader that was
/// accepted for it.
pub proof fn lemma_contract_is_open_or_held(c: Contract, player: PlayerId, trader: TraderId)
    ensures
        c.spec_is_open() <==> c.spec_holder() is None,
        c.spec_is_open() <==> c.spec_held_by() is None,
        c.spec_is_open() <==> c.state == ContractState::Open,
        c.state == (ContractState::Accepted { player, trader }) <==> c.spec_holder() == Some(
            (player, trader),
        ),
        c.spec_holder() == Some((player, trader)) ==> c.spec_held_by() == Some(trader),
{
}

/// A delivery needs its goods aboard and no other kind asks for any: it is met by its
/// quantity and more, by nothing less. A courier's job is always met; a bounty by as many
/// kills as it asks for, whatever is aboard.
pub proof fn lemma_what_a_contract_asks(
    c: Contract,
    commodity: CommodityId,
    quantity: Quantity,
    target: u32,
    progress: u32,
    aboard: Quantity,
)
    ensures
        ({
            let d = Contract { kind: ContractKind::Delivery { commodity, quantity }, ..c };
            &&& d.spec_cargo() == Some((commodity, quantity))
            &&& d.spec_condition_met(quantity)
            &&& aboard < quantity ==> !d.spec_condition_met(aboard)
            &&& aboard > quantity ==> d.spec_condition_met(aboard)
        }),
        ({
            let p = Contract { kind: ContractKind::Courier, ..c };
            p.spec_cargo() is None && p.spec_condition_met(aboard)
        }),
        ({
            let b = Contract { kind: ContractKind::Bounty { target, progress }, ..c };
            &&& b.spec_cargo() is None
            &&& b.spec_condition_met(aboard) == (progress >= target)
        }),
{
}

} // verus!
