use vstd::prelude::*;
use crate::bar::{aggregate, aggregate_bars, Bar, BarInterval, UnknownInterval, MAX_TICKS};
use crate::metrics::{compute_metrics, metrics_agree, zero_metrics, BacktestMetrics, MAX_TRADES};
use crate::position::{run, run_fits, initial_view, PositionTracker, Side, Trade, TrackerView};
use crate::scid::{ScidFile, Tick};

verus! {

/// Why a backtest stopped.
#[derive(Clone, Debug, PartialEq, Eq)]
pub enum EngineError {
    /// The interval selector names no supported width.
    Interval(UnknownInterval),
    /// The tick file holds more records than one aggregation takes.
    TooManyTicks { records: usize },
    /// Aggregation gave no bar.
    NoBars,
    /// The decision function gave a number of signals other than the number
    /// of elements it was given.
    SignalLengthMismatch { signals: usize, expected: usize },
    /// An amount of profit and loss left the range of `i64`.
    PnlOverflow,
}

/// Outcome of a backtest: statistics, ledger and equity curve.
pub struct BacktestResults {
    pub metrics: BacktestMetrics,
    pub trades: Vec<Trade>,
    pub equity_curve: Vec<i64>,
}

/// The open position, if any, closed at `price` and `timestamp_us`.
pub open spec fn finish_view(v: TrackerView, price: i64, timestamp_us: i64) -> TrackerView {
    if v.side != Side::Flat {
        v.step(0, price, timestamp_us)
    } else {
        v
    }
}

pub open spec fn finish_fits(v: TrackerView, price: i64) -> bool {
    v.side == Side::Flat || v.step_fits(0, price)
}

/// The statistics that `compute_metrics` gives for a ledger and curve.
pub open spec fn metrics_of(m: BacktestMetrics, trades: Seq<Trade>, equity: Seq<i64>) -> bool {
    &&& trades.len() == 0 ==> m == zero_metrics()
    &&& trades.len() > 0 ==> metrics_agree(m, trades, equity)
}

pub open spec fn closes(bars: Seq<Bar>) -> Seq<i64> {
    Seq::new(bars.len(), |i: int| bars[i].close)
}

pub open spec fn starts(bars: Seq<Bar>) -> Seq<i64> {
    Seq::new(bars.len(), |i: int| bars[i].timestamp_us)
}

pub open spec fn prices_of(ticks: Seq<Tick>) -> Seq<i64> {
    Seq::new(ticks.len(), |i: int| ticks[i].price)
}

pub open spec fn times_of(ticks: Seq<Tick>) -> Seq<i64> {
    Seq::new(ticks.len(), |i: int| ticks[i].timestamp_us)
}

/// The ticks with a positive price, in order.
pub open spec fn valid_ticks(ticks: Seq<Tick>) -> Seq<Tick>
    decreases ticks.len(),
{
    if ticks.len() == 0 {
        Seq::empty()
    } else if ticks.last().price > 0 {
        valid_ticks(ticks.drop_last()).push(ticks.last())
    } else {
        valid_ticks(ticks.drop_last())
    }
}

/// Opens the bar series of a backtest: the selector is parsed and the file's
/// ticks aggregated; an empty series is an error.
pub fn prepare_bars(scid: &ScidFile, interval: &str) -> (r: Result<Vec<Bar>, EngineError>)
    requires
        scid.wf(),
    ensures
        r matches Ok(bars) ==> bars@.len() > 0 && exists|iv: BarInterval|
            crate::bar::interval_of(interval@) == Some(iv.0) && bars@ == aggregate(
                scid.tick_seq(),
                iv.0 as int,
            ),
        r matches Err(EngineError::Interval(e)) ==> crate::bar::interval_of(interval@).is_none(),
        r matches Err(EngineError::TooManyTicks { records }) ==> records == scid.num_records
            && records > MAX_TICKS,
        r matches Err(EngineError::NoBars) ==> exists|iv: BarInterval|
            crate::bar::interval_of(interval@) == Some(iv.0) && aggregate(
                scid.tick_seq(),
                iv.0 as int,
            ).len() == 0,
        r is Ok || r matches Err(EngineError::Interval(_)) || r matches Err(
            EngineError::TooManyTicks { .. },
        ) || r matches Err(EngineError::NoBars),
        crate::bar::interval_of(interval@).is_none() ==> r matches Err(EngineError::Interval(_)),
{
    let iv = match BarInterval::from_str(interval) {
        Ok(iv) => iv,
        Err(e) => {
            return Err(EngineError::Interval(e));
        },
    };
    if scid.num_records > MAX_TICKS {
        return Err(EngineError::TooManyTicks { records: scid.num_records });
    }
    let bars = aggregate_bars(scid, iv);
    if bars.len() == 0 {
        return Err(EngineError::NoBars);
    }
    Ok(bars)
}

/// Closes any open position at `price` and `timestamp_us`, then computes
/// the statistics of the run.
pub fn finish(tracker: PositionTracker, price: i64, timestamp_us: i64) -> (r: Result<
    BacktestResults,
    EngineError,
>)
    requires
        tracker.trades@.len() < MAX_TRADES,
    ensures
        r is Ok <==> finish_fits(tracker@, price),
        r matches Err(e) ==> e == EngineError::PnlOverflow,
        r matches Ok(res) ==> {
            let v = finish_view(tracker@, price, timestamp_us);
            &&& res.trades@ == v.trades
            &&& res.equity_curve@ == v.equity_curve
            &&& metrics_of(res.metrics, v.trades, v.equity_curve)
        },
{
    let mut tracker = tracker;
    if !(tracker.side == Side::Flat || tracker.can_process(0, price)) {
        return Err(EngineError::PnlOverflow);
    }
    tracker.close_position(price, timestamp_us);
    let metrics = compute_metrics(tracker.trades.as_slice(), tracker.equity_curve.as_slice());
    Ok(BacktestResults { metrics, trades: tracker.trades, equity_curve: tracker.equity_curve })
}

/// Runs the tracker over a bar series, one signal per bar at the bar's close
/// and start, closes any open position at the last bar, and computes the
/// statistics.
pub fn simulate_bars(bars: &Vec<Bar>, signals: &Vec<i32>, commission: i64, point_value: i64) -> (r:
    Result<BacktestResults, EngineError>)
    requires
        bars@.len() < MAX_TRADES,
    ensures
        bars@.len() == 0 ==> r matches Err(EngineError::NoBars),
        bars@.len() > 0 && signals@.len() != bars@.len() ==> (r matches Err(
            EngineError::SignalLengthMismatch { signals: s, expected: e },
        ) && s == signals@.len() && e == bars@.len()),
        bars@.len() > 0 && signals@.len() == bars@.len() ==> {
            let n = bars@.len();
            let v = run(initial_view(commission, point_value), signals@, closes(bars@), starts(bars@), n);
            &&& r is Ok <==> run_fits(
                initial_view(commission, point_value),
                signals@,
                closes(bars@),
                starts(bars@),
                n,
            ) && finish_fits(v, bars@.last().close)
            &&& r matches Err(e) ==> e == EngineError::PnlOverflow
        },
        r matches Ok(res) ==> {
            let n = bars@.len();
            let v = finish_view(
                run(initial_view(commission, point_value), signals@, closes(bars@), starts(bars@), n),
                bars@.last().close,
                bars@.last().timestamp_us,
            );
            &&& n > 0
            &&& res.trades@ == v.trades
            &&& res.equity_curve@ == v.equity_curve
            &&& metrics_of(res.metrics, v.trades, v.equity_curve)
        },
{
    let n = bars.len();
    if n == 0 {
        return Err(EngineError::NoBars);
    }
    if signals.len() != n {
        return Err(EngineError::SignalLengthMismatch { signals: signals.len(), expected: n });
    }
    let ghost v0 = initial_view(commission, point_value);
    let ghost ps = closes(bars@);
    let ghost ts = starts(bars@);
    let mut tracker = PositionTracker::new(commission, point_value);
    let mut i: usize = 0;
    while i < n
        invariant
            n == bars@.len(),
            n == signals@.len(),
            n < MAX_TRADES,
            i <= n,
            ps == closes(bars@),
            ts == starts(bars@),
            v0 == initial_view(commission, point_value),
            tracker@ == run(v0, signals@, ps, ts, i as nat),
            run_fits(v0, signals@, ps, ts, i as nat),
            tracker.trades@.len() <= i,
        decreases n - i,
    {
        let bar = bars[i];
        if !tracker.can_process(signals[i], bar.close) {
            assert(!run(v0, signals@, ps, ts, i as nat).step_fits(signals@[i as int], ps[i as int]));
            return Err(EngineError::PnlOverflow);
        }
        tracker.process_signal(signals[i], bar.close, bar.timestamp_us);
        proof {
            assert forall|k: nat| k < i + 1 implies #[trigger] run(v0, signals@, ps, ts, k).step_fits(
                signals@[k as int],
                ps[k as int],
            ) by {
                if k < i {
                    assert(run(v0, signals@, ps, ts, k).step_fits(signals@[k as int], ps[k as int]));
                }
            }
        }
        i = i + 1;
    }
    let last = bars[n - 1];
    finish(tracker, last.close, last.timestamp_us)
}

/// The ticks with a positive price among records `start` to `end`
/// (exclusive), in order: one batch for the decision function.
pub fn valid_batch(scid: &ScidFile, start: usize, end: usize) -> (r: Vec<Tick>)
    requires
        scid.wf(),
        start <= end <= scid.num_records,
    ensures
        r@ == valid_ticks(scid.tick_seq().subrange(start as int, end as int)),
{
    let mut v: Vec<Tick> = Vec::new();
    let mut j: usize = start;
    assert(scid.tick_seq().subrange(start as int, start as int) =~= Seq::<Tick>::empty());
    while j < end
        invariant
            scid.wf(),
            start <= j <= end <= scid.num_records,
            v@ == valid_ticks(scid.tick_seq().subrange(start as int, j as int)),
        decreases end - j,
    {
        let t = scid.tick(j);
        proof {
            let s = scid.tick_seq().subrange(start as int, j + 1);
            assert(s.drop_last() =~= scid.tick_seq().subrange(start as int, j as int));
            assert(s.last() == t);
        }
        if t.price > 0 {
            v.push(t);
        }
        j = j + 1;
    }
    v
}

/// Runs the tracker over one batch of ticks, the `i`-th signal applying to
/// the `i`-th tick at its price and time.
pub fn apply_batch(tracker: &mut PositionTracker, batch: &Vec<Tick>, signals: &Vec<i32>) -> (r:
    Result<(), EngineError>)
    ensures
        signals@.len() != batch@.len() ==> (r matches Err(
            EngineError::SignalLengthMismatch { signals: s, expected: e },
        ) && s == signals@.len() && e == batch@.len() && final(tracker)@ == old(tracker)@),
        signals@.len() == batch@.len() ==> {
            &&& r is Ok <==> run_fits(
                old(tracker)@,
                signals@,
                prices_of(batch@),
                times_of(batch@),
                batch@.len(),
            )
            &&& r matches Err(e) ==> e == EngineError::PnlOverflow
        },
        r is Ok ==> final(tracker)@ == run(
            old(tracker)@,
            signals@,
            prices_of(batch@),
            times_of(batch@),
            batch@.len(),
        ),
        final(tracker).trades@.len() <= old(tracker).trades@.len() + batch@.len(),
{
    let n = batch.len();
    if signals.len() != n {
        return Err(EngineError::SignalLengthMismatch { signals: signals.len(), expected: n });
    }
    let ghost v0 = tracker@;
    let ghost ps = prices_of(batch@);
    let ghost ts = times_of(batch@);
    let ghost t0 = tracker.trades@.len();
    let mut i: usize = 0;
    while i < n
        invariant
            n == batch@.len(),
            n == signals@.len(),
            i <= n,
            ps == prices_of(batch@),
            ts == times_of(batch@),
            v0 == old(tracker)@,
            t0 == old(tracker).trades@.len(),
            tracker@ == run(v0, signals@, ps, ts, i as nat),
            run_fits(v0, signals@, ps, ts, i as nat),
            tracker.trades@.len() <= t0 + i,
        decreases n - i,
    {
        let t = batch[i];
        if !tracker.can_process(signals[i], t.price) {
            assert(!run(v0, signals@, ps, ts, i as nat).step_fits(signals@[i as int], ps[i as int]));
            return Err(EngineError::PnlOverflow);
        }
        tracker.process_signal(signals[i], t.price, t.timestamp_us);
        proof {
            assert forall|k: nat| k < i + 1 implies #[trigger] run(v0, signals@, ps, ts, k).step_fits(
                signals@[k as int],
                ps[k as int],
            ) by {
                if k < i {
                    assert(run(v0, signals@, ps, ts, k).step_fits(signals@[k as int], ps[k as int]));
                }
            }
        }
        i = i + 1;
    }
    Ok(())
}

} // verus!
