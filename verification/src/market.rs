//! A system's market: stock, price and price anchor of each good it trades.

use vstd::prelude::*;

use crate::by_id::ById;
use crate::ids::{CommodityId, Money, Quantity, SystemId};
use crate::pricing::PricingStrategy;

verus! {

/// A good on a market.
#[derive(Debug, Clone, Copy, PartialEq, Eq, Structural)]
pub struct MarketGood {
    /// Units for sale.
    pub stock: Quantity,
    /// The stock at which the good trades at its base price.
    pub equilibrium: Quantity,
    /// The unit price.
    pub price: Money,
}

/// A system's market.
#[derive(Debug, Clone)]
pub struct Market {
    pub system: SystemId,
    pub pricing: PricingStrategy,
    pub goods: ById<MarketGood>,
}

/// A [`Market`] as a mathematical value.
#[verifier::ext_equal]
pub struct MarketView {
    pub system: SystemId,
    pub pricing: PricingStrategy,
    pub goods: Map<CommodityId, MarketGood>,
}

impl View for Market {
    type V = MarketView;

    open spec fn view(&self) -> MarketView {
        MarketView { system: self.system, pricing: self.pricing, goods: self.goods@ }
    }
}

/// The views of a list of markets.
pub open spec fn market_views(markets: Seq<Market>) -> Seq<MarketView> {
    Seq::new(markets.len(), |i: int| markets[i]@)
}

/// `stock` and `qty` together, no more than the counter holds.
pub open spec fn stocked(stock: Quantity, qty: Quantity) -> Quantity {
    if stock + qty > u32::MAX {
        u32::MAX
    } else {
        (stock + qty) as u32
    }
}

impl MarketView {
    /// The price of `c`, where it is traded.
    pub open spec fn price(self, c: CommodityId) -> Option<Money> {
        if self.goods.contains_key(c) {
            Some(self.goods[c].price)
        } else {
            None
        }
    }

    /// The stock of `c`, none where it is not traded.
    pub open spec fn stock(self, c: CommodityId) -> Quantity {
        if self.goods.contains_key(c) {
            self.goods[c].stock
        } else {
            0
        }
    }

    /// The market with the stock of `c` replaced.
    pub open spec fn with_stock(self, c: CommodityId, stock: Quantity) -> MarketView {
        MarketView {
            goods: self.goods.insert(c, MarketGood { stock, ..self.goods[c] }),
            ..self
        }
    }

    /// The market after `qty` of `c` is brought in; nothing where it is not traded.
    pub open spec fn added(self, c: CommodityId, qty: Quantity) -> MarketView {
        if self.goods.contains_key(c) {
            self.with_stock(c, stocked(self.goods[c].stock, qty))
        } else {
            self
        }
    }
}

impl Market {
    /// The price of `c`, where it is traded.
    pub fn price(&self, c: CommodityId) -> (p: Option<Money>)
        ensures
            p == self@.price(c),
    {
        match self.goods.get(&c) {
            Some(g) => Some(g.price),
            None => None,
        }
    }

    /// The stock of `c`, none where it is not traded.
    pub fn stock(&self, c: CommodityId) -> (q: Quantity)
        ensures
            q == self@.stock(c),
    {
        match self.goods.get(&c) {
            Some(g) => g.stock,
            None => 0,
        }
    }

    /// Take `qty` of `c` out, if that much is there.
    pub fn try_remove(&mut self, c: CommodityId, qty: Quantity) -> (ok: bool)
        ensures
            ok == (old(self)@.goods.contains_key(c) && old(self)@.stock(c) >= qty),
            ok ==> final(self)@ == old(self)@.with_stock(c, (old(self)@.stock(c) - qty) as u32),
            !ok ==> final(self)@ == old(self)@,
    {
        let good = match self.goods.get(&c) {
            Some(g) => *g,
            None => {
                return false;
            },
        };
        if good.stock < qty {
            return false;
        }
        self.goods.insert(c, MarketGood { stock: good.stock - qty, ..good });
        true
    }

    /// Bring `qty` of `c` in. The counter saturates; a good not traded here is
    /// ignored.
    pub fn add(&mut self, c: CommodityId, qty: Quantity)
        ensures
            final(self)@ == old(self)@.added(c, qty),
    {
        let good = match self.goods.get(&c) {
            Some(g) => *g,
            None => {
                return ;
            },
        };
        self.goods.insert(c, MarketGood { stock: good.stock.saturating_add(qty), ..good });
    }
}

/// What is brought in is added to the stock, up to what the counter holds; the price, the
/// anchor and every other good are as they were, and a good that is not traded is ignored.
pub proof fn lemma_stock_comes_in(m: MarketView, c: CommodityId, qty: Quantity, d: CommodityId)
    ensures
        ({
            let n = m.added(c, qty);
            &&& n.system == m.system && n.pricing == m.pricing
            &&& n.goods.dom() == m.goods.dom()
            &&& m.goods.dom().contains(c) ==> {
                &&& m.goods[c].stock + qty <= u32::MAX ==> n.stock(c) == m.stock(c) + qty
                &&& m.goods[c].stock + qty > u32::MAX ==> n.stock(c) == u32::MAX
                &&& n.price(c) == m.price(c)
                &&& n.goods[c].equilibrium == m.goods[c].equilibrium
            }
            &&& d != c && m.goods.dom().contains(d) ==> n.goods[d] == m.goods[d]
            &&& !m.goods.dom().contains(c) ==> n == m
        }),
{
    assert(m.added(c, qty).goods.dom() =~= m.goods.dom());
}

/// Setting a stock changes nothing but that stock, and bringing back what was taken out
/// restores the market.
pub proof fn lemma_stock_is_set(m: MarketView, c: CommodityId, qty: Quantity, d: CommodityId)
    requires
        m.goods.dom().contains(c),
        m.goods[c].stock >= qty,
    ensures
        ({
            let n = m.with_stock(c, (m.stock(c) - qty) as u32);
            &&& n.stock(c) == m.goods[c].stock - qty
            &&& n.price(c) == Some(m.goods[c].price)
            &&& n.goods[c].equilibrium == m.goods[c].equilibrium
            &&& d != c && m.goods.dom().contains(d) ==> n.goods[d] == m.goods[d]
            &&& n.goods.dom() == m.goods.dom()
            &&& n.added(c, qty) == m
        }),
{
    let n = m.with_stock(c, (m.stock(c) - qty) as u32);
    assert(n.goods.dom() =~= m.goods.dom());
    assert(n.added(c, qty).goods =~= m.goods);
}

/// A market quotes the price and the stock of what it trades, and neither of anything else.
pub proof fn lemma_market_quotes(m: MarketView, c: CommodityId)
    ensures
        m.goods.dom().contains(c) ==> m.price(c) == Some(m.goods[c].price) && m.stock(c)
            == m.goods[c].stock,
        !m.goods.dom().contains(c) ==> m.price(c) is None && m.stock(c) == 0,
{
}

} // verus!
