use vstd::prelude::*;
use crate::position::{Side, Trade};

verus! {

/// Longest ledger that the statistics take; a slice of trades in memory is
/// far shorter, and the bound keeps every sum within `i128`.
pub const MAX_TRADES: u64 = 0x4000_0000_0000_0000;

/// An exact quotient `num / den`; a zero denominator with a positive
/// numerator stands for positive infinity.
#[derive(Clone, Copy, Debug, PartialEq, Eq, Structural)]
pub struct Ratio {
    pub num: i128,
    pub den: i128,
}

/// Summary statistics of a ledger and an equity curve. Amounts are in the
/// tracker's unit, ten-thousandths of a currency unit.
#[derive(Clone, Copy, Debug, PartialEq, Eq, Structural)]
pub struct BacktestMetrics {
    pub total_pnl: i128,
    pub num_trades: usize,
    pub num_wins: usize,
    pub num_losses: usize,
    /// Wins over all trades.
    pub win_rate: Ratio,
    /// Gross profit over gross loss.
    pub profit_factor: Ratio,
    /// Gross profit over wins.
    pub avg_win: Ratio,
    /// Gross loss, negated, over losses.
    pub avg_loss: Ratio,
    pub largest_win: i64,
    pub largest_loss: i64,
    pub max_drawdown: i128,
    /// Largest drawdown as a percentage of the peak it falls from.
    pub max_drawdown_pct: Ratio,
    /// Mean time between entry and exit, in seconds.
    pub avg_holding_time_secs: Ratio,
    pub num_long: usize,
    pub num_short: usize,
}

pub open spec fn sum_pnl(ts: Seq<Trade>) -> int
    decreases ts.len(),
{
    if ts.len() == 0 {
        0
    } else {
        sum_pnl(ts.drop_last()) + ts.last().pnl
    }
}

pub open spec fn num_wins(ts: Seq<Trade>) -> int
    decreases ts.len(),
{
    if ts.len() == 0 {
        0
    } else {
        num_wins(ts.drop_last()) + if ts.last().pnl > 0 {
            1int
        } else {
            0
        }
    }
}

pub open spec fn num_losses(ts: Seq<Trade>) -> int
    decreases ts.len(),
{
    if ts.len() == 0 {
        0
    } else {
        num_losses(ts.drop_last()) + if ts.last().pnl < 0 {
            1int
        } else {
            0
        }
    }
}

/// Sum of the positive profits.
pub open spec fn gross_profit(ts: Seq<Trade>) -> int
    decreases ts.len(),
{
    if ts.len() == 0 {
        0
    } else {
        gross_profit(ts.drop_last()) + if ts.last().pnl > 0 {
            ts.last().pnl as int
        } else {
            0
        }
    }
}

/// Sum of the absolute values of the negative profits.
pub open spec fn gross_loss(ts: Seq<Trade>) -> int
    decreases ts.len(),
{
    if ts.len() == 0 {
        0
    } else {
        gross_loss(ts.drop_last()) + if ts.last().pnl < 0 {
            -ts.last().pnl
        } else {
            0
        }
    }
}

/// The largest profit, or 0 when none is positive.
pub open spec fn largest_win(ts: Seq<Trade>) -> i64
    decreases ts.len(),
{
    if ts.len() == 0 {
        0
    } else {
        let prev = largest_win(ts.drop_last());
        if ts.last().pnl > prev {
            ts.last().pnl
        } else {
            prev
        }
    }
}

/// The most negative profit, or 0 when none is negative.
pub open spec fn largest_loss(ts: Seq<Trade>) -> i64
    decreases ts.len(),
{
    if ts.len() == 0 {
        0
    } else {
        let prev = largest_loss(ts.drop_last());
        if ts.last().pnl < prev {
            ts.last().pnl
        } else {
            prev
        }
    }
}

/// Sum of the times from entry to exit, in microseconds.
pub open spec fn total_holding(ts: Seq<Trade>) -> int
    decreases ts.len(),
{
    if ts.len() == 0 {
        0
    } else {
        total_holding(ts.drop_last()) + (ts.last().exit_time_us - ts.last().entry_time_us)
    }
}

pub open spec fn num_side(ts: Seq<Trade>, side: Side) -> int
    decreases ts.len(),
{
    if ts.len() == 0 {
        0
    } else {
        num_side(ts.drop_last(), side) + if ts.last().side == side {
            1int
        } else {
            0
        }
    }
}

/// Highest equity among the first `i + 1` samples.
pub open spec fn peak_at(eq: Seq<i64>, i: int) -> i64
    decreases i,
{
    if i <= 0 {
        eq[0]
    } else {
        let prev = peak_at(eq, i - 1);
        if eq[i] > prev {
            eq[i]
        } else {
            prev
        }
    }
}

/// Fall of sample `i` below the peak before it.
pub open spec fn drawdown_at(eq: Seq<i64>, i: int) -> int {
    peak_at(eq, i) - eq[i]
}

/// Largest drawdown among the first `n` samples, 0 when there are none.
pub open spec fn max_drawdown(eq: Seq<i64>, n: int) -> int
    decreases n,
{
    if n <= 0 {
        0
    } else {
        let prev = max_drawdown(eq, n - 1);
        if drawdown_at(eq, n - 1) > prev {
            drawdown_at(eq, n - 1)
        } else {
            prev
        }
    }
}

/// `r` is the largest ratio of drawdown to a positive peak over the curve,
/// `0 / 1` when no such ratio is positive; of equal ratios it is the first.
pub open spec fn is_max_drawdown_ratio(eq: Seq<i64>, r: Ratio) -> bool {
    &&& r.den > 0
    &&& r.num >= 0
    &&& forall|i: int|
        0 <= i < eq.len() && peak_at(eq, i) > 0 ==> #[trigger] drawdown_at(eq, i) * r.den <= r.num
            * peak_at(eq, i)
    &&& (r == (Ratio { num: 0, den: 1 }) || exists|i: int|
        0 <= i < eq.len() && peak_at(eq, i) > 0 && r.num == drawdown_at(eq, i) && r.den
            == peak_at(eq, i))
}

pub open spec fn ratio_or_zero(num: int, den: int) -> Ratio {
    if den > 0 {
        Ratio { num: num as i128, den: den as i128 }
    } else {
        Ratio { num: 0, den: 1 }
    }
}

/// Gross profit over gross loss; positive infinity without losses but with
/// profit; 0 with neither.
pub open spec fn profit_factor(ts: Seq<Trade>) -> Ratio {
    if gross_loss(ts) > 0 {
        Ratio { num: gross_profit(ts) as i128, den: gross_loss(ts) as i128 }
    } else if gross_profit(ts) > 0 {
        Ratio { num: 1, den: 0 }
    } else {
        Ratio { num: 0, den: 1 }
    }
}

/// Every statistic at zero.
pub open spec fn zero_metrics() -> BacktestMetrics {
    BacktestMetrics {
        total_pnl: 0,
        num_trades: 0,
        num_wins: 0,
        num_losses: 0,
        win_rate: Ratio { num: 0, den: 1 },
        profit_factor: Ratio { num: 0, den: 1 },
        avg_win: Ratio { num: 0, den: 1 },
        avg_loss: Ratio { num: 0, den: 1 },
        largest_win: 0,
        largest_loss: 0,
        max_drawdown: 0,
        max_drawdown_pct: Ratio { num: 0, den: 1 },
        avg_holding_time_secs: Ratio { num: 0, den: 1 },
        num_long: 0,
        num_short: 0,
    }
}

/// The statistics of a non-empty ledger, but for the percentage drawdown,
/// which `is_max_drawdown_ratio` pins down.
pub open spec fn metrics_agree(m: BacktestMetrics, ts: Seq<Trade>, eq: Seq<i64>) -> bool {
    &&& m.total_pnl == sum_pnl(ts)
    &&& m.num_trades == ts.len()
    &&& m.num_wins == num_wins(ts)
    &&& m.num_losses == num_losses(ts)
    &&& m.win_rate == ratio_or_zero(num_wins(ts), ts.len() as int)
    &&& m.profit_factor == profit_factor(ts)
    &&& m.avg_win == ratio_or_zero(gross_profit(ts), num_wins(ts))
    &&& m.avg_loss == ratio_or_zero(-gross_loss(ts), num_losses(ts))
    &&& m.largest_win == largest_win(ts)
    &&& m.largest_loss == largest_loss(ts)
    &&& m.max_drawdown == max_drawdown(eq, eq.len() as int)
    &&& is_max_drawdown_ratio(eq, Ratio { num: (m.max_drawdown_pct.num / 100) as i128, den: m.max_drawdown_pct.den })
    &&& m.max_drawdown_pct.num % 100 == 0
    &&& m.avg_holding_time_secs == ratio_or_zero(total_holding(ts), (ts.len() * 1_000_000) as int)
    &&& m.num_long == num_side(ts, Side::Long)
    &&& m.num_short == num_side(ts, Side::Short)
}

proof fn lemma_ratio_order(dj: int, pj: int, n0: int, d0: int, di: int, pi: int)
    requires
        d0 > 0,
        pi > 0,
        pj > 0,
        dj * d0 <= n0 * pj,
        n0 * pi < di * d0,
    ensures
        dj * pi <= di * pj,
{
    assert(dj * d0 * pi <= n0 * pj * pi) by (nonlinear_arith)
        requires
            dj * d0 <= n0 * pj,
            pi > 0,
    ;
    assert(n0 * pi * pj < di * d0 * pj) by (nonlinear_arith)
        requires
            n0 * pi < di * d0,
            pj > 0,
    ;
    assert(n0 * pj * pi == n0 * pi * pj) by (nonlinear_arith);
    assert(dj * pi * d0 < di * pj * d0) by (nonlinear_arith)
        requires
            dj * d0 * pi < di * d0 * pj,
    ;
    assert(dj * pi <= di * pj) by (nonlinear_arith)
        requires
            dj * pi * d0 < di * pj * d0,
            d0 > 0,
    ;
}

/// Largest drawdown of the equity curve, and the largest ratio of drawdown
/// to a positive peak, scanning from the first sample.
pub fn calc_max_drawdown(equity: &[i64]) -> (r: (i128, Ratio))
    ensures
        r.0 == max_drawdown(equity@, equity@.len() as int),
        is_max_drawdown_ratio(equity@, r.1),
{
    let n = equity.len();
    let mut best = Ratio { num: 0, den: 1 };
    let mut max_dd: i128 = 0;
    if n == 0 {
        return (max_dd, best);
    }
    let mut peak: i64 = equity[0];
    let mut i: usize = 0;
    while i < n
        invariant
            n == equity@.len(),
            n > 0,
            i <= n,
            i == 0 ==> peak == equity@[0],
            i > 0 ==> peak == peak_at(equity@, i - 1),
            max_dd == max_drawdown(equity@, i as int),
            0 <= best.num < 0x1_0000_0000_0000_0000,
            0 < best.den < 0x8000_0000_0000_0000,
            forall|j: int|
                0 <= j < i && peak_at(equity@, j) > 0 ==> #[trigger] drawdown_at(equity@, j)
                    * best.den <= best.num * peak_at(equity@, j),
            best == (Ratio { num: 0, den: 1 }) || exists|j: int|
                0 <= j < i && peak_at(equity@, j) > 0 && best.num == drawdown_at(equity@, j)
                    && best.den == peak_at(equity@, j),
        decreases n - i,
    {
        let eq = equity[i];
        if eq > peak {
            peak = eq;
        }
        assert(peak == peak_at(equity@, i as int));
        let dd: i128 = peak as i128 - eq as i128;
        assert(dd == drawdown_at(equity@, i as int));
        if dd > max_dd {
            max_dd = dd;
        }
        if peak > 0 {
            proof {
                assert(0 <= dd * best.den < 0x7fff_ffff_ffff_ffff_8000_0000_0000_0000)
                    by (nonlinear_arith)
                    requires
                        0 <= dd < 0x1_0000_0000_0000_0000,
                        0 < best.den < 0x8000_0000_0000_0000,
                ;
                assert(0 <= best.num * peak < 0x7fff_ffff_ffff_ffff_8000_0000_0000_0000)
                    by (nonlinear_arith)
                    requires
                        0 <= best.num < 0x1_0000_0000_0000_0000,
                        0 < peak < 0x8000_0000_0000_0000,
                ;
            }
            if dd * best.den > best.num * (peak as i128) {
                let ghost old_best = best;
                best = Ratio { num: dd, den: peak as i128 };
                proof {
                    assert forall|j: int|
                        0 <= j < i + 1 && peak_at(equity@, j) > 0 implies #[trigger] drawdown_at(
                        equity@,
                        j,
                    ) * best.den <= best.num * peak_at(equity@, j) by {
                        if j < i {
                            lemma_ratio_order(
                                drawdown_at(equity@, j),
                                peak_at(equity@, j) as int,
                                old_best.num as int,
                                old_best.den as int,
                                dd as int,
                                peak as int,
                            );
                        }
                    }
                }
            }
        }
        i = i + 1;
    }
    (max_dd, best)
}

/// Statistics of a ledger and its equity curve; every statistic is zero when
/// the ledger is empty.
pub fn compute_metrics(trades: &[Trade], equity_curve: &[i64]) -> (r: BacktestMetrics)
    requires
        trades@.len() <= MAX_TRADES,
    ensures
        trades@.len() == 0 ==> r == zero_metrics(),
        trades@.len() > 0 ==> metrics_agree(r, trades@, equity_curve@),
{
    let n = trades.len();
    if n == 0 {
        return BacktestMetrics {
            total_pnl: 0,
            num_trades: 0,
            num_wins: 0,
            num_losses: 0,
            win_rate: Ratio { num: 0, den: 1 },
            profit_factor: Ratio { num: 0, den: 1 },
            avg_win: Ratio { num: 0, den: 1 },
            avg_loss: Ratio { num: 0, den: 1 },
            largest_win: 0,
            largest_loss: 0,
            max_drawdown: 0,
            max_drawdown_pct: Ratio { num: 0, den: 1 },
            avg_holding_time_secs: Ratio { num: 0, den: 1 },
            num_long: 0,
            num_short: 0,
        };
    }
    let ghost ts = trades@;
    let mut total_pnl: i128 = 0;
    let mut gross_profit_v: i128 = 0;
    let mut gross_loss_v: i128 = 0;
    let mut wins: usize = 0;
    let mut losses: usize = 0;
    let mut largest_win_v: i64 = 0;
    let mut largest_loss_v: i64 = 0;
    let mut holding: i128 = 0;
    let mut longs: usize = 0;
    let mut shorts: usize = 0;
    let mut i: usize = 0;
    while i < n
        invariant
            ts == trades@,
            n == ts.len(),
            n <= MAX_TRADES,
            i <= n,
            total_pnl == sum_pnl(ts.take(i as int)),
            gross_profit_v == gross_profit(ts.take(i as int)),
            gross_loss_v == gross_loss(ts.take(i as int)),
            wins == num_wins(ts.take(i as int)),
            losses == num_losses(ts.take(i as int)),
            largest_win_v == largest_win(ts.take(i as int)),
            largest_loss_v == largest_loss(ts.take(i as int)),
            holding == total_holding(ts.take(i as int)),
            longs == num_side(ts.take(i as int), Side::Long),
            shorts == num_side(ts.take(i as int), Side::Short),
            -(i * 0x8000_0000_0000_0000) <= total_pnl <= i * 0x8000_0000_0000_0000,
            0 <= gross_profit_v <= i * 0x8000_0000_0000_0000,
            0 <= gross_loss_v <= i * 0x8000_0000_0000_0000,
            -(i * 0x1_0000_0000_0000_0000) <= holding <= i * 0x1_0000_0000_0000_0000,
            largest_win_v >= 0,
            largest_loss_v <= 0,
            wins <= i,
            losses <= i,
            longs <= i,
            shorts <= i,
        decreases n - i,
    {
        let t = trades[i];
        proof {
            let s = ts.take(i as int + 1);
            assert(s.drop_last() =~= ts.take(i as int));
            assert(s.last() == t);
        }
        total_pnl = total_pnl + t.pnl as i128;
        if t.pnl > 0 {
            wins = wins + 1;
            gross_profit_v = gross_profit_v + t.pnl as i128;
            if t.pnl > largest_win_v {
                largest_win_v = t.pnl;
            }
        } else if t.pnl < 0 {
            losses = losses + 1;
            gross_loss_v = gross_loss_v - t.pnl as i128;
            if t.pnl < largest_loss_v {
                largest_loss_v = t.pnl;
            }
        }
        holding = holding + (t.exit_time_us as i128 - t.entry_time_us as i128);
        match t.side {
            Side::Long => {
                longs = longs + 1;
            },
            Side::Short => {
                shorts = shorts + 1;
            },
            Side::Flat => {},
        }
        i = i + 1;
    }
    assert(ts.take(n as int) =~= ts);
    let profit_factor_v = if gross_loss_v > 0 {
        Ratio { num: gross_profit_v, den: gross_loss_v }
    } else if gross_profit_v > 0 {
        Ratio { num: 1, den: 0 }
    } else {
        Ratio { num: 0, den: 1 }
    };
    let avg_win = if wins > 0 {
        Ratio { num: gross_profit_v, den: wins as i128 }
    } else {
        Ratio { num: 0, den: 1 }
    };
    let avg_loss = if losses > 0 {
        Ratio { num: -gross_loss_v, den: losses as i128 }
    } else {
        Ratio { num: 0, den: 1 }
    };
    let (max_dd, dd_ratio) = calc_max_drawdown(equity_curve);
    let pct = Ratio { num: dd_ratio.num * 100, den: dd_ratio.den };
    assert(pct.num / 100 == dd_ratio.num);
    assert(pct == (Ratio { num: (dd_ratio.num * 100) as i128, den: dd_ratio.den }));
    BacktestMetrics {
        total_pnl,
        num_trades: n,
        num_wins: wins,
        num_losses: losses,
        win_rate: Ratio { num: wins as i128, den: n as i128 },
        profit_factor: profit_factor_v,
        avg_win,
        avg_loss,
        largest_win: largest_win_v,
        largest_loss: largest_loss_v,
        max_drawdown: max_dd,
        max_drawdown_pct: pct,
        avg_holding_time_secs: Ratio { num: holding, den: n as i128 * 1_000_000 },
        num_long: longs,
        num_short: shorts,
    }
}

} // verus!
