use scid_backtest::position::{PositionTracker, Side, Trade};

#[test]
fn new_tracker_is_flat() {
    let t = PositionTracker::new(125, 50);
    assert_eq!(t.side, Side::Flat);
    assert!(t.trades.is_empty());
    assert!(t.equity_curve.is_empty());
    assert_eq!(t.running_pnl, 0);
    assert_eq!((t.commission, t.point_value), (125, 50));
}

#[test]
fn constant_flat_signal_makes_no_trades() {
    let mut t = PositionTracker::new(0, 50);
    for (i, p) in [10000i64, 10500, 9800, 10100].iter().enumerate() {
        t.process_signal(0, *p, i as i64);
    }
    assert!(t.trades.is_empty());
    assert_eq!(t.equity_curve, vec![0, 0, 0, 0]);
}

#[test]
fn constant_long_signal_at_constant_price() {
    let mut t = PositionTracker::new(0, 50);
    for i in 0..5i64 {
        assert!(t.can_process(1, 10000));
        t.process_signal(1, 10000, i);
    }
    assert!(t.trades.is_empty());
    assert_eq!(t.equity_curve, vec![0; 5]);
    assert_eq!(t.side, Side::Long);
}

#[test]
fn held_position_marks_to_market() {
    let mut t = PositionTracker::new(0, 5000);
    t.process_signal(1, 10000, 0);
    t.process_signal(1, 10010, 1);
    t.process_signal(2, 9990, 2);
    assert_eq!(t.equity_curve, vec![0, 50000, -50000]);
    assert!(t.trades.is_empty());
}

#[test]
fn immediate_flip_realizes_long_and_opens_short() {
    let mut t = PositionTracker::new(0, 5000);
    t.process_signal(1, 10000, 1_000_000);
    t.process_signal(-1, 10500, 2_000_000);
    assert_eq!(
        t.trades,
        vec![Trade {
            entry_time_us: 1_000_000,
            exit_time_us: 2_000_000,
            side: Side::Long,
            entry_price: 10000,
            exit_price: 10500,
            pnl: 2_500_000,
        }]
    );
    assert_eq!(t.side, Side::Short);
    assert_eq!(t.entry_price, 10500);
    assert_eq!(t.equity_curve, vec![0, 2_500_000]);
    t.close_position(10400, 3_000_000);
    assert_eq!(t.trades.len(), 2);
    assert_eq!(t.trades[1].side, Side::Short);
    assert_eq!(t.trades[1].pnl, 500_000);
    assert_eq!(t.side, Side::Flat);
    assert_eq!(t.running_pnl, 3_000_000);
    assert_eq!(t.equity_curve, vec![0, 2_500_000, 3_000_000]);
}

#[test]
fn commission_is_charged_per_trade() {
    let mut t = PositionTracker::new(25000, 2000);
    t.process_signal(-3, 2000, 0);
    t.process_signal(0, 2100, 5);
    assert_eq!(t.trades[0].pnl, -200_000 - 25000);
    assert_eq!(t.running_pnl, -225_000);
    assert_eq!(t.equity_curve, vec![0, -225_000]);
}

#[test]
fn close_position_when_flat_does_nothing() {
    let mut t = PositionTracker::new(0, 50);
    t.close_position(100, 1);
    assert!(t.equity_curve.is_empty());
    assert!(t.trades.is_empty());
}

#[test]
fn can_process_reports_overflow() {
    let mut t = PositionTracker::new(0, i64::MAX);
    t.process_signal(1, 0, 0);
    assert!(!t.can_process(1, 2));
    assert!(!t.can_process(0, 2));
    assert!(t.can_process(0, 1));
}

#[test]
fn running_pnl_is_ledger_sum() {
    let mut t = PositionTracker::new(100, 20);
    let events = [(1, 5000i64), (1, 5100), (-1, 5050), (0, 4900), (0, 4800), (1, 4850), (-1, 4950), (1, 4700)];
    for (i, (s, p)) in events.iter().enumerate() {
        assert!(t.can_process(*s, *p));
        t.process_signal(*s, *p, i as i64 * 1_000_000);
    }
    assert_eq!(t.equity_curve.len(), events.len());
    assert!(t.trades.len() <= events.len());
    assert_eq!(t.trades.len(), 4);
    assert_eq!(t.running_pnl, t.trades.iter().map(|x| x.pnl).sum::<i64>());
    assert_eq!(t.trades[0].pnl, 50 * 20 - 100);
}
