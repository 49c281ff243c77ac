use vstd::prelude::*;
use crate::metrics::sum_pnl;

verus! {

/// Direction of the position held.
#[derive(Clone, Copy, Debug, PartialEq, Eq, Structural)]
pub enum Side {
    Flat,
    Long,
    Short,
}

/// A closed position. Prices are in hundredths of a price unit; `pnl` is in
/// ten-thousandths of a currency unit, commission included.
#[derive(Clone, Copy, Debug, PartialEq, Eq, Structural)]
pub struct Trade {
    pub entry_time_us: i64,
    pub exit_time_us: i64,
    pub side: Side,
    pub entry_price: i64,
    pub exit_price: i64,
    pub pnl: i64,
}

/// Holds at most one position and turns signals into trades and an equity
/// curve.
///
/// Prices are in hundredths of a price unit. `point_value` is the amount,
/// in hundredths of a currency unit, of one whole price unit, so a move of
/// one hundredth is worth `point_value` ten-thousandths of a currency unit;
/// `commission`, every profit and loss and every equity sample are in
/// ten-thousandths of a currency unit.
#[derive(Clone, Debug)]
pub struct PositionTracker {
    pub side: Side,
    pub entry_price: i64,
    pub entry_time_us: i64,
    pub commission: i64,
    pub point_value: i64,
    pub trades: Vec<Trade>,
    pub equity_curve: Vec<i64>,
    pub running_pnl: i64,
}

/// The state of a tracker, its ledger and equity curve as sequences.
pub struct TrackerView {
    pub side: Side,
    pub entry_price: i64,
    pub entry_time_us: i64,
    pub commission: i64,
    pub point_value: i64,
    pub trades: Seq<Trade>,
    pub equity_curve: Seq<i64>,
    pub running_pnl: i64,
}

/// The side that a signal asks for.
pub open spec fn desired_side(signal: i32) -> Side {
    if signal > 0 {
        Side::Long
    } else if signal < 0 {
        Side::Short
    } else {
        Side::Flat
    }
}

/// Profit of a position of `side` entered at `entry` and valued at `price`,
/// before commission.
pub open spec fn position_pnl(side: Side, entry: i64, price: i64, point_value: i64) -> int {
    match side {
        Side::Long => (price - entry) * point_value,
        Side::Short => (entry - price) * point_value,
        Side::Flat => 0,
    }
}

pub open spec fn fits_i64(x: int) -> bool {
    i64::MIN <= x <= i64::MAX
}

/// A tracker that has seen no event.
pub open spec fn initial_view(commission: i64, point_value: i64) -> TrackerView {
    TrackerView {
        side: Side::Flat,
        entry_price: 0,
        entry_time_us: 0,
        commission,
        point_value,
        trades: Seq::empty(),
        equity_curve: Seq::empty(),
        running_pnl: 0,
    }
}

impl TrackerView {
    /// Value of the open position at `price`, before commission.
    pub open spec fn unrealized(self, price: i64) -> int {
        position_pnl(self.side, self.entry_price, price, self.point_value)
    }

    /// Profit of closing the open position at `price`, commission included.
    pub open spec fn close_pnl(self, price: i64) -> int {
        self.unrealized(price) - self.commission
    }

    /// The open position closed at `price` and `timestamp_us` and its trade
    /// recorded.
    pub open spec fn realize(self, price: i64, timestamp_us: i64) -> TrackerView {
        let pnl = self.close_pnl(price);
        TrackerView {
            side: Side::Flat,
            trades: self.trades.push(
                Trade {
                    entry_time_us: self.entry_time_us,
                    exit_time_us: timestamp_us,
                    side: self.side,
                    entry_price: self.entry_price,
                    exit_price: price,
                    pnl: pnl as i64,
                },
            ),
            running_pnl: (self.running_pnl + pnl) as i64,
            ..self
        }
    }

    /// The state after one event.
    pub open spec fn step(self, signal: i32, price: i64, timestamp_us: i64) -> TrackerView {
        let desired = desired_side(signal);
        if desired == self.side {
            TrackerView {
                equity_curve: self.equity_curve.push(
                    (self.running_pnl + self.unrealized(price)) as i64,
                ),
                ..self
            }
        } else {
            let closed = if self.side != Side::Flat {
                self.realize(price, timestamp_us)
            } else {
                self
            };
            let opened = if desired != Side::Flat {
                TrackerView {
                    side: desired,
                    entry_price: price,
                    entry_time_us: timestamp_us,
                    ..closed
                }
            } else {
                closed
            };
            TrackerView { equity_curve: opened.equity_curve.push(opened.running_pnl), ..opened }
        }
    }

    /// Every amount that the event stores fits in `i64`.
    pub open spec fn step_fits(self, signal: i32, price: i64) -> bool {
        if desired_side(signal) == self.side {
            fits_i64(self.running_pnl + self.unrealized(price))
        } else if self.side != Side::Flat {
            fits_i64(self.close_pnl(price)) && fits_i64(self.running_pnl + self.close_pnl(price))
        } else {
            true
        }
    }
}

impl View for PositionTracker {
    type V = TrackerView;

    open spec fn view(&self) -> TrackerView {
        TrackerView {
            side: self.side,
            entry_price: self.entry_price,
            entry_time_us: self.entry_time_us,
            commission: self.commission,
            point_value: self.point_value,
            trades: self.trades@,
            equity_curve: self.equity_curve@,
            running_pnl: self.running_pnl,
        }
    }
}

impl PositionTracker {
    /// A flat tracker with an empty ledger and equity curve.
    pub fn new(commission: i64, point_value: i64) -> (r: PositionTracker)
        ensures
            r@ == initial_view(commission, point_value),
    {
        PositionTracker {
            side: Side::Flat,
            entry_price: 0,
            entry_time_us: 0,
            commission,
            point_value,
            trades: Vec::new(),
            equity_curve: Vec::new(),
            running_pnl: 0,
        }
    }

    /// Whether every amount that the event would store fits in `i64`.
    pub fn can_process(&self, signal: i32, price: i64) -> (r: bool)
        ensures
            r == self@.step_fits(signal, price),
    {
        let desired = desired_of(signal);
        let unrealized = self.calc_pnl(price);
        let running = self.running_pnl as i128;
        if desired == self.side {
            fits(running + unrealized)
        } else if self.side != Side::Flat {
            if unrealized > 0x4000_0000_0000_0000_0000_0000_0000_0000
                || unrealized < -0x4000_0000_0000_0000_0000_0000_0000_0000 {
                return false;
            }
            let pnl = unrealized - self.commission as i128;
            fits(pnl) && fits(running + pnl)
        } else {
            true
        }
    }

    /// Applies one event: a positive signal asks for a long position, a
    /// negative one for a short position, zero for none. A change of side
    /// closes the open position at `price` and opens the new one there;
    /// every event adds one equity sample. Every amount stored must fit in
    /// `i64`, which `can_process` tells beforehand.
    pub fn process_signal(&mut self, signal: i32, price: i64, timestamp_us: i64)
        requires
            old(self)@.step_fits(signal, price),
        ensures
            final(self)@ == old(self)@.step(signal, price, timestamp_us),
    {
        let desired = desired_of(signal);
        if desired == self.side {
            let sample = self.running_pnl as i128 + self.unrealized_pnl(price);
            self.equity_curve.push(sample as i64);
            return;
        }
        if self.side != Side::Flat {
            let pnl = (self.calc_pnl(price) - self.commission as i128) as i64;
            self.running_pnl = self.running_pnl + pnl;
            self.trades.push(
                Trade {
                    entry_time_us: self.entry_time_us,
                    exit_time_us: timestamp_us,
                    side: self.side,
                    entry_price: self.entry_price,
                    exit_price: price,
                    pnl,
                },
            );
            self.side = Side::Flat;
        }
        if desired != Side::Flat {
            self.side = desired;
            self.entry_price = price;
            self.entry_time_us = timestamp_us;
        }
        self.equity_curve.push(self.running_pnl);
    }

    fn calc_pnl(&self, exit_price: i64) -> (r: i128)
        ensures
            r == self@.unrealized(exit_price),
            -0x7fff_ffff_ffff_ffff_8000_0000_0000_0000 <= r <= 0x7fff_ffff_ffff_ffff_8000_0000_0000_0000,
    {
        let diff = exit_price as i128 - self.entry_price as i128;
        let pv = self.point_value as i128;
        proof {
            assert(-0x7fff_ffff_ffff_ffff_8000_0000_0000_0000 <= diff * pv
                <= 0x7fff_ffff_ffff_ffff_8000_0000_0000_0000) by (nonlinear_arith)
                requires
                    -0xffff_ffff_ffff_ffff <= diff <= 0xffff_ffff_ffff_ffff,
                    -0x8000_0000_0000_0000 <= pv <= 0x7fff_ffff_ffff_ffff,
            ;
            assert(diff * pv == (exit_price - self.entry_price) * self.point_value);
            assert(-(diff * pv) == (self.entry_price - exit_price) * self.point_value)
                by (nonlinear_arith)
                requires
                    diff == exit_price - self.entry_price,
                    pv == self.point_value,
            ;
        }
        match self.side {
            Side::Long => diff * pv,
            Side::Short => -(diff * pv),
            Side::Flat => 0,
        }
    }

    fn unrealized_pnl(&self, current_price: i64) -> (r: i128)
        ensures
            r == self@.unrealized(current_price),
            -0x7fff_ffff_ffff_ffff_8000_0000_0000_0000 <= r <= 0x7fff_ffff_ffff_ffff_8000_0000_0000_0000,
    {
        self.calc_pnl(current_price)
    }

    /// Closes an open position at `price` and `timestamp_us`, as a zero
    /// signal would; a flat tracker is left as it is.
    pub fn close_position(&mut self, price: i64, timestamp_us: i64)
        requires
            old(self).side == Side::Flat || old(self)@.step_fits(0, price),
        ensures
            old(self).side != Side::Flat ==> final(self)@ == old(self)@.step(0, price, timestamp_us),
            old(self).side == Side::Flat ==> final(self)@ == old(self)@,
    {
        if self.side != Side::Flat {
            self.process_signal(0, price, timestamp_us);
        }
    }
}

/// The state after the first `n` events, the `i`-th being `signals[i]` at
/// `prices[i]` and `times[i]`.
pub open spec fn run(
    v: TrackerView,
    signals: Seq<i32>,
    prices: Seq<i64>,
    times: Seq<i64>,
    n: nat,
) -> TrackerView
    decreases n,
{
    if n == 0 {
        v
    } else {
        run(v, signals, prices, times, (n - 1) as nat).step(
            signals[n - 1],
            prices[n - 1],
            times[n - 1],
        )
    }
}

/// Every one of the first `n` events stores amounts that fit in `i64`.
pub open spec fn run_fits(
    v: TrackerView,
    signals: Seq<i32>,
    prices: Seq<i64>,
    times: Seq<i64>,
    n: nat,
) -> bool {
    forall|k: nat| k < n ==> #[trigger] run(v, signals, prices, times, k).step_fits(signals[k as int], prices[k as int])
}

/// Over any run from a fresh tracker in which every amount fits, there is
/// one equity sample per event, at most one trade per event, and the
/// running profit is the sum of the ledger's profits.
pub proof fn lemma_run_ledger(
    commission: i64,
    point_value: i64,
    signals: Seq<i32>,
    prices: Seq<i64>,
    times: Seq<i64>,
    n: nat,
)
    requires
        n <= signals.len(),
        signals.len() == prices.len(),
        signals.len() == times.len(),
        run_fits(initial_view(commission, point_value), signals, prices, times, n),
    ensures
        ({
            let r = run(initial_view(commission, point_value), signals, prices, times, n);
            &&& r.equity_curve.len() == n
            &&& r.trades.len() <= n
            &&& r.running_pnl == sum_pnl(r.trades)
        }),
    decreases n,
{
    let v0 = initial_view(commission, point_value);
    if n == 0 {
        assert(sum_pnl(Seq::<Trade>::empty()) == 0);
    } else {
        let k = (n - 1) as nat;
        assert(run_fits(v0, signals, prices, times, k)) by {
            assert forall|j: nat| j < k implies #[trigger] run(v0, signals, prices, times, j).step_fits(
                signals[j as int],
                prices[j as int],
            ) by {
                assert(run(v0, signals, prices, times, j).step_fits(signals[j as int], prices[j as int]));
            }
        }
        lemma_run_ledger(commission, point_value, signals, prices, times, k);
        let p = run(v0, signals, prices, times, k);
        assert(p.step_fits(signals[k as int], prices[k as int]));
        if desired_side(signals[k as int]) != p.side && p.side != Side::Flat {
            let c = p.realize(prices[k as int], times[k as int]);
            assert(c.trades.drop_last() =~= p.trades);
        }
    }
}

proof fn lemma_constant_signal_prefix(
    point_value: i64,
    signal: i32,
    signals: Seq<i32>,
    prices: Seq<i64>,
    times: Seq<i64>,
    n: nat,
)
    requires
        n <= signals.len(),
        signals.len() == prices.len(),
        signals.len() == times.len(),
        forall|i: int| 0 <= i < signals.len() ==> signals[i] == signal,
        signal == 0 || forall|i: int| 0 <= i < prices.len() ==> #[trigger] prices[i] == prices[0],
    ensures
        ({
            let r = run(initial_view(0, point_value), signals, prices, times, n);
            &&& r.trades.len() == 0
            &&& r.equity_curve.len() == n
            &&& forall|i: int| 0 <= i < n ==> r.equity_curve[i] == 0
            &&& r.running_pnl == 0
            &&& r.commission == 0
            &&& r.point_value == point_value
            &&& n == 0 ==> r.side == Side::Flat
            &&& n > 0 ==> r.side == desired_side(signal)
            &&& n > 0 && r.side != Side::Flat ==> r.entry_price == prices[0]
        }),
    decreases n,
{
    if n > 0 {
        lemma_constant_signal_prefix(point_value, signal, signals, prices, times, (n - 1) as nat);
        let p = run(initial_view(0, point_value), signals, prices, times, (n - 1) as nat);
        let r = run(initial_view(0, point_value), signals, prices, times, n);
        assert(signals[n - 1] == signal);
        if n - 1 > 0 && p.side != Side::Flat {
            assert(prices[n - 1] == prices[0]);
            assert(p.unrealized(prices[n - 1]) == 0);
        }
        assert forall|i: int| 0 <= i < n implies r.equity_curve[i] == 0 by {
            if i < n - 1 {
                assert(r.equity_curve[i] == p.equity_curve[i]);
            }
        }
    }
}

/// A tracker that starts flat without commission and sees one signal value
/// throughout records no trade and one equity sample per event, each zero.
/// A nonzero signal holds a position whose value moves with the price, so
/// for it the prices stay at the first one.
pub proof fn lemma_constant_signal_no_trades(
    point_value: i64,
    signal: i32,
    signals: Seq<i32>,
    prices: Seq<i64>,
    times: Seq<i64>,
)
    requires
        signals.len() == prices.len(),
        signals.len() == times.len(),
        forall|i: int| 0 <= i < signals.len() ==> signals[i] == signal,
        signal == 0 || forall|i: int| 0 <= i < prices.len() ==> #[trigger] prices[i] == prices[0],
    ensures
        ({
            let r = run(initial_view(0, point_value), signals, prices, times, signals.len());
            &&& r.trades.len() == 0
            &&& r.equity_curve.len() == signals.len()
            &&& forall|i: int| 0 <= i < signals.len() ==> r.equity_curve[i] == 0
        }),
{
    lemma_constant_signal_prefix(point_value, signal, signals, prices, times, signals.len());
}

fn desired_of(signal: i32) -> (r: Side)
    ensures
        r == desired_side(signal),
{
    if signal > 0 {
        Side::Long
    } else if signal < 0 {
        Side::Short
    } else {
        Side::Flat
    }
}

fn fits(x: i128) -> (r: bool)
    ensures
        r == fits_i64(x as int),
{
    i64::MIN as i128 <= x && x <= i64::MAX as i128
}

} // verus!
