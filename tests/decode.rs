use scid_backtest::scid::{ScidError, ScidFile, Tick, EPOCH_OFFSET_US, HEADER_SIZE, RECORD_SIZE};

fn header() -> Vec<u8> {
    let mut b = vec![0u8; HEADER_SIZE];
    b[0] = b'S';
    b[1] = b'C';
    b[2] = b'I';
    b[3] = b'D';
    b
}

fn push_record(b: &mut Vec<u8>, dt: i64, open: f32, high: f32, low: f32, close: f32, trades: u32, vol: u32, bid: u32, ask: u32) {
    b.extend_from_slice(&dt.to_le_bytes());
    for p in [open, high, low, close] {
        b.extend_from_slice(&p.to_bits().to_le_bytes());
    }
    for x in [trades, vol, bid, ask] {
        b.extend_from_slice(&x.to_le_bytes());
    }
}

#[test]
fn open_empty_file_has_no_records() {
    let f = ScidFile::open(header()).unwrap();
    assert_eq!(f.num_records, 0);
    assert!(f.ticks().is_empty());
    assert!(f.get_tick(0).is_none());
}

#[test]
fn open_too_small() {
    let mut b = header();
    b.truncate(10);
    assert_eq!(ScidFile::open(b).err(), Some(ScidError::TooSmall { len: 10 }));
    assert_eq!(ScidFile::open(Vec::new()).err(), Some(ScidError::TooSmall { len: 0 }));
}

#[test]
fn open_bad_magic_is_format_error() {
    let mut b = header();
    push_record(&mut b, 0, 1.0, 1.0, 1.0, 1.0, 1, 1, 0, 1);
    b[2] = b'X';
    assert_eq!(ScidFile::open(b).err(), Some(ScidError::BadMagic));
}

#[test]
fn open_misaligned_names_data_length() {
    let mut b = header();
    push_record(&mut b, 0, 1.0, 1.0, 1.0, 1.0, 1, 1, 0, 1);
    b.extend_from_slice(&[1, 2, 3]);
    assert_eq!(ScidFile::open(b).err(), Some(ScidError::Misaligned { data_len: RECORD_SIZE + 3 }));
}

#[test]
fn decode_tick_fields() {
    let mut b = header();
    let dt = EPOCH_OFFSET_US + 1_700_000_000_000_000;
    push_record(&mut b, dt, 512500.0, 512550.0, 512475.0, 512525.0, 7, 12, 5, 7);
    push_record(&mut b, dt + 1_000_000, 0.0, 0.0, 0.0, -250.0, 1, 3, 1, 2);
    let f = ScidFile::open(b).unwrap();
    assert_eq!(f.num_records, 2);
    let t = f.tick(0);
    assert_eq!(
        t,
        Tick {
            timestamp_us: 1_700_000_000_000_000,
            price: 512525,
            bid: 512475,
            ask: 512550,
            volume: 12,
            bid_volume: 5,
            ask_volume: 7,
            num_trades: 7,
        }
    );
    let raw = f.raw_record(0);
    assert_eq!(raw.sc_datetime, dt);
    assert_eq!(raw.close, 512525.0f32.to_bits());
    let t1 = f.tick(1);
    assert_eq!(t1.price, -250);
    assert_eq!(t1.timestamp_us, 1_700_000_001_000_000);
    assert_eq!(f.ticks(), vec![t, t1]);
    assert_eq!(f.get_tick(1), Some(t1));
    assert!(f.get_tick(2).is_none());
}

#[test]
fn decode_fractional_and_huge_prices() {
    let mut b = header();
    push_record(&mut b, 0, 0.0, 1.0e30, 0.75, 1234.9, 0, 0, 0, 0);
    push_record(&mut b, i64::MIN, 0.0, f32::INFINITY, f32::NAN, 16777216.0, 0, 0, 0, 0);
    let f = ScidFile::open(b).unwrap();
    let t = f.tick(0);
    assert_eq!(t.price, 1234);
    assert_eq!(t.bid, 0);
    assert_eq!(t.ask, 0);
    assert_eq!(t.timestamp_us, -EPOCH_OFFSET_US);
    let t1 = f.tick(1);
    assert_eq!(t1.price, 16777216);
    assert_eq!(t1.ask, 0);
    assert_eq!(t1.bid, 0);
    assert_eq!(t1.timestamp_us, i64::MIN);
}
