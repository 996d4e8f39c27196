//! A tick, step by step.
//!
//! The phases run in a fixed order: commands and production ([`World::begin_tick`]);
//! prices, pirate movement, navy and piracy ([`World::reprice`]); combat
//! ([`World::fight`]); trading ([`World::trade`] and [`World::answer`], one trader after
//! the other); contracts ([`World::survey`] and the start of [`World::end_tick`]); and
//! finance. Between two steps the host works out what takes real-valued arithmetic.

use vstd::prelude::*;

use crate::bits::Bits;
use crate::command::Command;
use crate::ids::{Money, Quantity};
use crate::world::battle;
use crate::world::battle::Fought;
use crate::world::board;
use crate::world::books;
use crate::world::commands;
use crate::world::fleet;
use crate::world::trade;
use crate::world::trade::TradePlan;
use crate::world::works;
use crate::world::{Stage, World, WorldView};

verus! {

/// The world after the first `n` of the queued commands have been applied in order.
/// Rejected ones are counted and leave their error behind.
pub open spec fn obeyed(w: WorldView, n: int) -> WorldView
    decreases n,
{
    if n <= 0 {
        WorldView { commands: Seq::empty(), last_errors: Seq::empty(), ..w }
    } else {
        let v = obeyed(w, n - 1);
        match commands::applied(v, w.commands[n - 1]) {
            Ok(next) => WorldView {
                commands_applied: next.commands_applied.wrapping_add(1),
                ..next
            },
            Err(e) => WorldView {
                commands_rejected: v.commands_rejected.wrapping_add(1),
                last_errors: v.last_errors.push(e),
                ..v
            },
        }
    }
}

/// The world after every queued command has been dealt with.
pub open spec fn commanded(w: WorldView) -> WorldView {
    obeyed(w, w.commands.len() as int)
}

/// The world at the end of the first step.
pub open spec fn begun(w: WorldView, wants: Seq<Vec<u32>>) -> WorldView {
    WorldView { stage: Stage::Produced, ..works::produced(commanded(w), wants) }
}

/// The world at the end of the second step.
pub open spec fn engaged(
    w: WorldView,
    targets: Seq<Vec<Money>>,
    pirate_shields: Seq<Bits>,
    navy_shields: Seq<Bits>,
) -> WorldView {
    let priced = works::repriced(w, targets);
    let moved = battle::navy_run(fleet::pirates_run(priced, pirate_shields), navy_shields);
    WorldView { stage: Stage::Engaged, ..battle::piracy_run(moved) }
}

/// The world once its battles have advanced.
pub open spec fn fought(w: WorldView, results: Seq<Fought>) -> WorldView {
    WorldView { stage: Stage::Trading(0), ..battle::combat_run(w, results) }
}

/// The world once its board has been swept.
pub open spec fn surveyed(w: WorldView) -> WorldView {
    WorldView { stage: Stage::Posting, ..board::board_swept(w) }
}

/// The world at the end of the tick.
pub open spec fn ended(w: WorldView, reward: Money) -> WorldView {
    let v = books::finance_run(board::board_filled(w, reward));
    WorldView { stage: Stage::Idle, tick: v.tick.spec_plus(1), ..v }
}

/// What the host works out for a tick.
pub struct HostTick {
    pub wants: Seq<Vec<u32>>,
    pub targets: Seq<Vec<Money>>,
    pub pirate_shields: Seq<Bits>,
    pub navy_shields: Seq<Bits>,
    pub results: Seq<Fought>,
    /// What the traders that look for a trade are told, one after the other.
    pub answers: Seq<(Option<TradePlan>, Seq<Option<Money>>)>,
    pub reward: Money,
}

/// The world after trading has gone on from where it stands.
pub open spec fn resumed(w: WorldView) -> WorldView {
    match w.stage {
        Stage::Trading(t) => trade::traded(w, t as int),
        _ => w,
    }
}

/// The world after the first `n` traders that look for a trade have been answered.
pub open spec fn haggled(
    w: WorldView,
    answers: Seq<(Option<TradePlan>, Seq<Option<Money>>)>,
    n: int,
) -> WorldView
    decreases n,
{
    if n <= 0 {
        resumed(w)
    } else {
        resumed(
            trade::answered(haggled(w, answers, n - 1), answers[n - 1].0, answers[n - 1].1),
        )
    }
}

/// The world after a whole tick.
pub open spec fn ticked(w: WorldView, h: HostTick) -> WorldView {
    let a = engaged(begun(w, h.wants), h.targets, h.pirate_shields, h.navy_shields);
    let b = haggled(fought(a, h.results), h.answers, h.answers.len() as int);
    ended(surveyed(b), h.reward)
}

/// The world after commands have been queued and a whole tick has passed.
#[verifier::opaque]
pub open spec fn stepped(w: WorldView, step: (Seq<Command>, HostTick)) -> WorldView {
    ticked(WorldView { commands: w.commands + step.0, ..w }, step.1)
}

/// The world after `n` ticks, with the commands of each queued before it.
pub open spec fn ran(
    w: WorldView,
    script: Seq<(Seq<Command>, HostTick)>,
    n: int,
) -> WorldView
    decreases n,
{
    if n <= 0 {
        w
    } else {
        stepped(ran(w, script, n - 1), script[n - 1])
    }
}

impl World {
    /// Enqueue a player command for the next tick. Commands are validated when they are
    /// applied, not on receipt, so their order is what counts.
    pub fn queue_command(&mut self, command: Command)
        ensures
            final(self)@ == (WorldView {
                commands: old(self)@.commands.push(command),
                ..old(self)@
            }),
    {
        self.commands.push(command);
    }

    /// Drain and apply the queued player commands, in submission order.
    fn command_phase(&mut self)
        requires
            old(self)@.wf(),
        ensures
            final(self)@ == commanded(old(self)@),
            final(self)@.wf(),
    {
        let ghost w = self@;
        self.last_errors = Vec::new();
        let mut queue: Vec<Command> = Vec::new();
        std::mem::swap(&mut queue, &mut self.commands);
        let mut i: usize = 0;
        assert(self@ =~= obeyed(w, 0));
        assert(self@.wf());
        while i < queue.len()
            invariant
                i <= queue@.len(),
                queue@ == w.commands,
                self@.wf(),
                self@ == obeyed(w, i as int),
            decreases queue@.len() - i,
        {
            let ghost v = self@;
            match self.apply_command(queue[i]) {
                Ok(()) => {
                    self.commands_applied = self.commands_applied.wrapping_add(1);
                },
                Err(e) => {
                    self.commands_rejected = self.commands_rejected.wrapping_add(1);
                    self.last_errors.push(e);
                },
            }
            assert(self@ =~= obeyed(w, i + 1));
            assert(self@.wf());
            i = i + 1;
        }
    }

    /// The first step of a tick: commands, then production. `wants` holds the whole
    /// batches wanted of each industry of each system; returns those that ran.
    pub fn begin_tick(&mut self, wants: &Vec<Vec<u32>>) -> (done: Vec<Vec<u32>>)
        requires
            old(self)@.ready(),
            old(self)@.stage == Stage::Idle,
        ensures
            final(self)@ == begun(old(self)@, wants@),
            final(self)@.ready(),
            final(self)@.stage == Stage::Produced,
            works::ran(commanded(old(self)@), wants@, done@),
    {
        self.command_phase();
        let done = self.production_phase(wants);
        self.stage = Stage::Produced;
        assert(self@.wf());
        done
    }

    /// The second step: prices ease toward `targets`, the fleets move (their shields
    /// having regenerated to the given values), the navy opens hunts, and pirates open
    /// ambushes.
    pub fn reprice(
        &mut self,
        targets: &Vec<Vec<Money>>,
        pirate_shields: &Vec<Bits>,
        navy_shields: &Vec<Bits>,
    )
        requires
            old(self)@.ready(),
            old(self)@.stage == Stage::Produced,
        ensures
            final(self)@ == engaged(old(self)@, targets@, pirate_shields@, navy_shields@),
            final(self)@.ready(),
            final(self)@.stage == Stage::Engaged,
    {
        self.price_phase(targets);
        self.pirate_phase(pirate_shields);
        self.navy_phase(navy_shields);
        self.piracy_phase();
        self.stage = Stage::Engaged;
        assert(self@.wf());
    }

    /// The third step: every running battle has come to `results`; those that are over
    /// are applied.
    pub fn fight(&mut self, results: Vec<Fought>)
        requires
            old(self)@.ready(),
            old(self)@.stage == Stage::Engaged,
            battle::matches_battles(old(self)@.encounters, results@),
        ensures
            final(self)@ == fought(old(self)@, results@),
            final(self)@.ready(),
            final(self)@.stage == Stage::Trading(0),
    {
        self.combat_phase(results);
        self.stage = Stage::Trading(0);
        assert(self@.wf());
    }

    /// After trading: the board is swept. Returns the unit price and the units of the
    /// delivery that would be posted now.
    pub fn survey(&mut self) -> (terms: Option<(Money, Quantity)>)
        requires
            old(self)@.ready(),
            old(self)@.stage == Stage::Closing,
        ensures
            final(self)@ == surveyed(old(self)@),
            final(self)@.ready(),
            final(self)@.stage == Stage::Posting,
            terms == board::delivery_terms(final(self)@),
    {
        self.sweep_board();
        self.stage = Stage::Posting;
        assert(self@.wf());
        self.quote_delivery()
    }

    /// The last step: a contract is posted where one is due (a delivery pays `reward`),
    /// the books are closed, and the clock advances.
    pub fn end_tick(&mut self, reward: Money)
        requires
            old(self)@.ready(),
            old(self)@.stage == Stage::Posting,
        ensures
            final(self)@ == ended(old(self)@, reward),
            final(self)@.ready(),
            final(self)@.stage == Stage::Idle,
    {
        self.fill_board(reward);
        self.finance_phase();
        self.tick = self.tick.next();
        self.stage = Stage::Idle;
        assert(self@.wf());
    }
}

} // verus!
