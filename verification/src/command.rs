//! The command pipeline: the entry point for player actions.
//!
//! Every action a player takes is a [`Command`], queued on the world and applied,
//! validated, at a tick boundary. Commands never change the world directly, so they
//! can be ordered, replayed and rejected.

use vstd::prelude::*;

use crate::finance::FutureSide;
use crate::ids::{
    CommodityId, ContractId, LoanId, Money, PatrolId, PlayerId, Quantity, ShipId, SystemId, TraderId,
};

verus! {

/// A player-issued action. Operands are resolved handles.
#[derive(Debug, Clone, Copy, PartialEq, Eq, Structural)]
pub enum Command {
    /// Bring a new player-owned trader into the galaxy. The world assigns its id.
    Spawn { player: PlayerId, ship: ShipId, at: SystemId, capital: Money },
    /// Retire a player trader.
    Despawn { player: PlayerId, trader: TraderId },
    /// Order a docked player trader to jump to a connected system.
    Jump { player: PlayerId, trader: TraderId, dest: SystemId },
    /// Buy `qty` of a commodity at the trader's current market.
    Buy { player: PlayerId, trader: TraderId, commodity: CommodityId, qty: Quantity },
    /// Sell `qty` of a commodity from the hold at the trader's current market.
    Sell { player: PlayerId, trader: TraderId, commodity: CommodityId, qty: Quantity },
    /// Claim an open contract for one of the player's traders.
    AcceptContract { player: PlayerId, trader: TraderId, contract: ContractId },
    /// Complete an accepted contract at its destination, collecting the reward.
    FulfillContract { player: PlayerId, trader: TraderId, contract: ContractId },
    /// Borrow `principal` credits against a docked trader.
    TakeLoan { player: PlayerId, trader: TraderId, principal: Money },
    /// Repay up to `amount` of a loan from the borrowing trader's capital. Paying
    /// the balance down to zero closes the loan.
    RepayLoan { player: PlayerId, trader: TraderId, loan: LoanId, amount: Money },
    /// Insure a docked trader against destruction, paying the premium up front.
    BuyInsurance { player: PlayerId, trader: TraderId },
    /// Open a cash-settled futures position at the current spot price, for a fee.
    OpenFuture {
        player: PlayerId,
        trader: TraderId,
        commodity: CommodityId,
        qty: Quantity,
        side: FutureSide,
    },
    /// Report that the player's trader destroyed a pirate in a real-time fight.
    DestroyedPirate { player: PlayerId, trader: TraderId, pirate: PatrolId },
    /// Report that the player's trader was destroyed in a real-time fight.
    TraderDestroyed { player: PlayerId, trader: TraderId },
    /// Take drifting cargo aboard, free of charge, as much as the hold takes.
    ScoopCargo { player: PlayerId, trader: TraderId, commodity: CommodityId, qty: Quantity },
}

impl Command {
    /// The player that issued the command.
    pub open spec fn spec_player(self) -> PlayerId {
        match self {
            Command::Spawn { player, .. } => player,
            Command::Despawn { player, .. } => player,
            Command::Jump { player, .. } => player,
            Command::Buy { player, .. } => player,
            Command::Sell { player, .. } => player,
            Command::AcceptContract { player, .. } => player,
            Command::FulfillContract { player, .. } => player,
            Command::TakeLoan { player, .. } => player,
            Command::RepayLoan { player, .. } => player,
            Command::BuyInsurance { player, .. } => player,
            Command::OpenFuture { player, .. } => player,
            Command::DestroyedPirate { player, .. } => player,
            Command::TraderDestroyed { player, .. } => player,
            Command::ScoopCargo { player, .. } => player,
        }
    }

    /// The player that issued the command, for authorization.
    pub fn player(&self) -> (p: PlayerId)
        ensures
            p == self.spec_player(),
    {
        match *self {
            Command::Spawn { player, .. } => player,
            Command::Despawn { player, .. } => player,
            Command::Jump { player, .. } => player,
            Command::Buy { player, .. } => player,
            Command::Sell { player, .. } => player,
            Command::AcceptContract { player, .. } => player,
            Command::FulfillContract { player, .. } => player,
            Command::TakeLoan { player, .. } => player,
            Command::RepayLoan { player, .. } => player,
            Command::BuyInsurance { player, .. } => player,
            Command::OpenFuture { player, .. } => player,
            Command::DestroyedPirate { player, .. } => player,
            Command::TraderDestroyed { player, .. } => player,
            Command::ScoopCargo { player, .. } => player,
        }
    }
}

/// Why a command was rejected. Rejection is normal, never fatal: the command is
/// dropped and counted.
#[derive(Debug, Clone, Copy, PartialEq, Eq, Structural)]
pub enum CommandError {
    UnknownShip,
    InvalidSystem,
    UnknownTrader,
    NotOwner,
    NotDocked,
    Unreachable,
    UnknownGood,
    InsufficientFunds,
    InsufficientStock,
    InsufficientCargo,
    OverCapacity,
    ZeroQuantity,
    UnknownContract,
    ContractUnavailable,
    ContractNotHeld,
    ContractExpired,
    WrongDestination,
    BountyIncomplete,
    LendingUnavailable,
    LoanTooLarge,
    TooManyLoans,
    UnknownLoan,
    LoanNotHeld,
    InsuranceUnavailable,
    AlreadyInsured,
    FuturesUnavailable,
    FutureTooLarge,
    TooManyFutures,
    UnknownPatrol,
}

impl CommandError {
    /// The rejection as a phrase.
    pub open spec fn spec_message(self) -> Seq<char> {
        match self {
            CommandError::UnknownShip => "unknown ship id"@,
            CommandError::InvalidSystem => "unknown or invalid system id"@,
            CommandError::UnknownTrader => "no such trader"@,
            CommandError::NotOwner => "trader is not owned by this player"@,
            CommandError::NotDocked => "trader is not docked"@,
            CommandError::Unreachable => "destination is not reachable in one jump"@,
            CommandError::UnknownGood => "this market does not trade that commodity"@,
            CommandError::InsufficientFunds => "not enough capital"@,
            CommandError::InsufficientStock => "not enough stock on the market"@,
            CommandError::InsufficientCargo => "not enough of that good in the hold"@,
            CommandError::OverCapacity => "would exceed cargo capacity"@,
            CommandError::ZeroQuantity => "quantity must be positive"@,
            CommandError::UnknownContract => "no such contract"@,
            CommandError::ContractUnavailable => "contract is not open for acceptance"@,
            CommandError::ContractNotHeld => "contract is not held by this trader"@,
            CommandError::ContractExpired => "contract deadline has passed"@,
            CommandError::WrongDestination => "trader is not at the contract's destination"@,
            CommandError::BountyIncomplete => "bounty contract's pirate quota is not yet met"@,
            CommandError::LendingUnavailable => "lending is not available in this scenario"@,
            CommandError::LoanTooLarge => "loan principal exceeds the maximum"@,
            CommandError::TooManyLoans => "trader already carries the maximum number of loans"@,
            CommandError::UnknownLoan => "no such loan"@,
            CommandError::LoanNotHeld => "loan is not held by this trader"@,
            CommandError::InsuranceUnavailable => "insurance is not available in this scenario"@,
            CommandError::AlreadyInsured => "trader is already insured"@,
            CommandError::FuturesUnavailable =>
                "a futures market is not available in this scenario"@,
            CommandError::FutureTooLarge => "futures position exceeds the maximum quantity"@,
            CommandError::TooManyFutures => "trader already carries the maximum number of futures"@,
            CommandError::UnknownPatrol => "no such pirate"@,
        }
    }

    /// The rejection as a phrase.
    pub fn message(&self) -> (s: &'static str)
        ensures
            s@ == self.spec_message(),
    {
        match self {
            CommandError::UnknownShip => "unknown ship id",
            CommandError::InvalidSystem => "unknown or invalid system id",
            CommandError::UnknownTrader => "no such trader",
            CommandError::NotOwner => "trader is not owned by this player",
            CommandError::NotDocked => "trader is not docked",
            CommandError::Unreachable => "destination is not reachable in one jump",
            CommandError::UnknownGood => "this market does not trade that commodity",
            CommandError::InsufficientFunds => "not enough capital",
            CommandError::InsufficientStock => "not enough stock on the market",
            CommandError::InsufficientCargo => "not enough of that good in the hold",
            CommandError::OverCapacity => "would exceed cargo capacity",
            CommandError::ZeroQuantity => "quantity must be positive",
            CommandError::UnknownContract => "no such contract",
            CommandError::ContractUnavailable => "contract is not open for acceptance",
            CommandError::ContractNotHeld => "contract is not held by this trader",
            CommandError::ContractExpired => "contract deadline has passed",
            CommandError::WrongDestination => "trader is not at the contract's destination",
            CommandError::BountyIncomplete => "bounty contract's pirate quota is not yet met",
            CommandError::LendingUnavailable => "lending is not available in this scenario",
            CommandError::LoanTooLarge => "loan principal exceeds the maximum",
            CommandError::TooManyLoans => "trader already carries the maximum number of loans",
            CommandError::UnknownLoan => "no such loan",
            CommandError::LoanNotHeld => "loan is not held by this trader",
            CommandError::InsuranceUnavailable => "insurance is not available in this scenario",
            CommandError::AlreadyInsured => "trader is already insured",
            CommandError::FuturesUnavailable =>
                "a futures market is not available in this scenario",
            CommandError::FutureTooLarge => "futures position exceeds the maximum quantity",
            CommandError::TooManyFutures => "trader already carries the maximum number of futures",
            CommandError::UnknownPatrol => "no such pirate",
        }
    }
}

} // verus!
