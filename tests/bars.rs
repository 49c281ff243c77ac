use scid_backtest::bar::{aggregate_bars, aggregate_ticks, Bar, BarInterval, UnknownInterval};
use scid_backtest::scid::{ScidFile, Tick, EPOCH_OFFSET_US, HEADER_SIZE};

fn tick(ts: i64, price: i64, volume: u32) -> Tick {
    Tick {
        timestamp_us: ts,
        price,
        bid: price - 25,
        ask: price + 25,
        volume,
        bid_volume: volume / 2,
        ask_volume: volume - volume / 2,
        num_trades: 1,
    }
}

#[test]
fn from_str_known_selectors() {
    let cases = [
        ("1s", 1u64),
        ("5s", 5),
        ("10s", 10),
        ("30s", 30),
        ("1m", 60),
        ("3m", 180),
        ("5m", 300),
        ("15m", 900),
        ("30m", 1800),
        ("1h", 3600),
        ("4h", 14400),
        ("1d", 86400),
    ];
    for (s, secs) in cases {
        assert_eq!(BarInterval::from_str(s).unwrap().0, secs);
    }
}

#[test]
fn from_str_unknown_selector() {
    let e = BarInterval::from_str("2m").err().unwrap();
    assert_eq!(e, UnknownInterval { selector: "2m".to_string() });
    assert!(BarInterval::from_str("").is_err());
    assert!(BarInterval::from_str("1s ").is_err());
}

#[test]
fn bar_start_floors_to_interval() {
    let iv = BarInterval(60);
    assert_eq!(iv.bar_start(0), 0);
    assert_eq!(iv.bar_start(59_999_999), 0);
    assert_eq!(iv.bar_start(60_000_000), 60_000_000);
    assert_eq!(iv.bar_start(125_500_000), 120_000_000);
    assert_eq!(iv.bar_start(-1), -60_000_000);
    assert_eq!(iv.bar_start(-60_000_000), -60_000_000);
    assert_eq!(iv.bar_start(i64::MIN), i64::MIN);
}

#[test]
fn bar_start_idempotent_and_monotonic() {
    let iv = BarInterval(300);
    let ts = [-700_000_001i64, -1, 0, 299_999_999, 300_000_000, 1_700_000_123_456_789];
    for w in ts.windows(2) {
        assert!(iv.bar_start(w[0]) <= iv.bar_start(w[1]));
    }
    for t in ts {
        let b = iv.bar_start(t);
        assert_eq!(iv.bar_start(b), b);
        assert_eq!(b % 300_000_000, 0);
    }
}

#[test]
fn aggregate_empty_gives_no_bars() {
    assert!(aggregate_ticks(&Vec::new(), BarInterval(60)).is_empty());
}

#[test]
fn aggregate_single_tick_gives_one_bar() {
    let bars = aggregate_ticks(&vec![tick(61_000_000, 500, 3)], BarInterval(60));
    assert_eq!(
        bars,
        vec![Bar {
            timestamp_us: 60_000_000,
            open: 500,
            high: 500,
            low: 500,
            close: 500,
            volume: 3,
            bid_volume: 1,
            ask_volume: 2,
            num_trades: 1,
        }]
    );
}

#[test]
fn aggregate_buckets_skips_invalid_and_keeps_volume() {
    let ticks = vec![
        tick(1_000_000, 100, 2),
        tick(2_000_000, 0, 50),
        tick(3_000_000, 104, 3),
        tick(4_000_000, 98, 4),
        tick(5_000_000, 101, 1),
        tick(62_000_000, -5, 70),
        tick(65_000_000, 110, 6),
        tick(190_000_000, 90, 8),
    ];
    let bars = aggregate_ticks(&ticks, BarInterval(60));
    assert_eq!(bars.len(), 3);
    let b0 = bars[0];
    assert_eq!((b0.timestamp_us, b0.open, b0.high, b0.low, b0.close), (0, 100, 104, 98, 101));
    assert_eq!((b0.volume, b0.num_trades), (10, 4));
    assert_eq!((bars[1].timestamp_us, bars[1].open, bars[1].close, bars[1].volume), (60_000_000, 110, 110, 6));
    assert_eq!((bars[2].timestamp_us, bars[2].volume), (180_000_000, 8));
    let bar_volume: u64 = bars.iter().map(|b| b.volume).sum();
    let valid_volume: u64 = ticks.iter().filter(|t| t.price > 0).map(|t| t.volume as u64).sum();
    assert_eq!(bar_volume, valid_volume);
    for b in &bars {
        assert!(b.low <= b.open && b.open <= b.high);
        assert!(b.low <= b.close && b.close <= b.high);
    }
}

#[test]
fn aggregate_revisited_bucket_opens_new_bar() {
    let ticks = vec![tick(1_000_000, 100, 1), tick(70_000_000, 101, 1), tick(2_000_000, 102, 1)];
    let bars = aggregate_ticks(&ticks, BarInterval(60));
    let starts: Vec<i64> = bars.iter().map(|b| b.timestamp_us).collect();
    assert_eq!(starts, vec![0, 60_000_000, 0]);
}

#[test]
fn aggregate_bars_reads_file() {
    let mut b = vec![0u8; HEADER_SIZE];
    b[..4].copy_from_slice(b"SCID");
    for (secs, close, vol) in [(10i64, 10000.0f32, 5u32), (20, 10100.0, 7), (70, 9900.0, 1)] {
        b.extend_from_slice(&(EPOCH_OFFSET_US + secs * 1_000_000).to_le_bytes());
        for p in [0.0f32, close, close, close] {
            b.extend_from_slice(&p.to_bits().to_le_bytes());
        }
        for x in [1u32, vol, 0, vol] {
            b.extend_from_slice(&x.to_le_bytes());
        }
    }
    let f = ScidFile::open(b).unwrap();
    let bars = aggregate_bars(&f, BarInterval::from_str("1m").unwrap());
    assert_eq!(bars.len(), 2);
    assert_eq!((bars[0].open, bars[0].high, bars[0].low, bars[0].close, bars[0].volume), (10000, 10100, 10000, 10100, 12));
    assert_eq!((bars[1].timestamp_us, bars[1].close, bars[1].ask_volume), (60_000_000, 9900, 1));
}
