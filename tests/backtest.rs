use scid_backtest::bar::Bar;
use scid_backtest::engine::{apply_batch, finish, prepare_bars, simulate_bars, valid_batch, EngineError};
use scid_backtest::position::{PositionTracker, Side};
use scid_backtest::scid::{ScidFile, EPOCH_OFFSET_US, HEADER_SIZE};

fn bar(ts: i64, close: i64) -> Bar {
    Bar { timestamp_us: ts, open: close, high: close, low: close, close, volume: 1, bid_volume: 0, ask_volume: 1, num_trades: 1 }
}

fn file(records: &[(i64, f32)]) -> ScidFile {
    let mut b = vec![0u8; HEADER_SIZE];
    b[..4].copy_from_slice(b"SCID");
    for (secs, close) in records {
        b.extend_from_slice(&(EPOCH_OFFSET_US + secs * 1_000_000).to_le_bytes());
        for p in [0.0f32, *close, *close, *close] {
            b.extend_from_slice(&p.to_bits().to_le_bytes());
        }
        for x in [1u32, 2, 1, 1] {
            b.extend_from_slice(&x.to_le_bytes());
        }
    }
    ScidFile::open(b).unwrap()
}

#[test]
fn simulate_bars_rejects_empty_and_mismatch() {
    assert!(matches!(simulate_bars(&vec![], &vec![], 0, 50), Err(EngineError::NoBars)));
    let bars = vec![bar(0, 100), bar(60_000_000, 101)];
    assert!(matches!(
        simulate_bars(&bars, &vec![1], 0, 50),
        Err(EngineError::SignalLengthMismatch { signals: 1, expected: 2 })
    ));
}

#[test]
fn simulate_bars_closes_at_last_bar() {
    let bars = vec![bar(0, 10000), bar(60_000_000, 10500), bar(120_000_000, 10400)];
    let res = simulate_bars(&bars, &vec![1, -1, -1], 0, 5000).ok().unwrap();
    assert_eq!(res.trades.len(), 2);
    assert_eq!(res.trades[0].pnl, 2_500_000);
    assert_eq!(res.trades[1].side, Side::Short);
    assert_eq!(res.trades[1].pnl, 500_000);
    assert_eq!(res.trades[1].exit_time_us, 120_000_000);
    assert_eq!(res.equity_curve, vec![0, 2_500_000, 3_000_000, 3_000_000]);
    assert_eq!(res.metrics.total_pnl, 3_000_000);
    assert_eq!(res.metrics.num_trades, 2);
}

#[test]
fn simulate_bars_reports_overflow() {
    let bars = vec![bar(0, 0), bar(60_000_000, 10)];
    assert!(matches!(simulate_bars(&bars, &vec![1, 1], 0, i64::MAX), Err(EngineError::PnlOverflow)));
}

#[test]
fn prepare_bars_errors() {
    let f = file(&[(10, 100.0)]);
    assert!(matches!(prepare_bars(&f, "7m"), Err(EngineError::Interval(_))));
    let g = file(&[(10, 0.0)]);
    assert!(matches!(prepare_bars(&g, "1m"), Err(EngineError::NoBars)));
    let bars = prepare_bars(&f, "1m").ok().unwrap();
    assert_eq!(bars.len(), 1);
    assert_eq!(bars[0].close, 100);
}

#[test]
fn batches_filter_and_align_signals() {
    let f = file(&[(1, 100.0), (2, 0.0), (3, 102.0), (4, 103.0)]);
    let batch = valid_batch(&f, 0, 3);
    let prices: Vec<i64> = batch.iter().map(|t| t.price).collect();
    assert_eq!(prices, vec![100, 102]);
    let mut tracker = PositionTracker::new(0, 1);
    assert!(matches!(
        apply_batch(&mut tracker, &batch, &vec![1, 1, 1]),
        Err(EngineError::SignalLengthMismatch { signals: 3, expected: 2 })
    ));
    assert!(tracker.equity_curve.is_empty());
    apply_batch(&mut tracker, &batch, &vec![1, 0]).unwrap();
    assert_eq!(tracker.trades.len(), 1);
    assert_eq!(tracker.trades[0].pnl, 2);
    let rest = valid_batch(&f, 3, 4);
    apply_batch(&mut tracker, &rest, &vec![-1]).unwrap();
    let last = f.tick(3);
    let res = finish(tracker, last.price, last.timestamp_us).ok().unwrap();
    assert_eq!(res.trades.len(), 2);
    assert_eq!(res.trades[1].pnl, 0);
    assert_eq!(res.equity_curve, vec![0, 2, 2, 2]);
}
