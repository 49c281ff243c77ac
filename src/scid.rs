use vstd::prelude::*;
use vstd::arithmetic::power2::{pow2, lemma2_to64};
use vstd::bits::{lemma_u64_shl_is_mul, lemma_u64_shr_is_div};

verus! {

/// Bytes before the first record.
pub const HEADER_SIZE: usize = 56;

/// Bytes in one record.
pub const RECORD_SIZE: usize = 40;

/// Microseconds between 1899-12-30, the epoch of the file's timestamps, and
/// the Unix epoch.
pub const EPOCH_OFFSET_US: i64 = 2_209_161_600_000_000;

/// Decoded prices are held in hundredths of a price unit; a decoded price
/// lies strictly between `-PRICE_LIMIT` and `PRICE_LIMIT`.
pub const PRICE_LIMIT: i64 = 0x100_0000_0000;

/// One record as it is stored. The four price fields keep the bit patterns
/// of the stored single-precision values.
#[derive(Clone, Copy, Debug, PartialEq, Eq, Structural)]
pub struct RawScidRecord {
    pub sc_datetime: i64,
    pub open: u32,
    pub high: u32,
    pub low: u32,
    pub close: u32,
    pub num_trades: u32,
    pub total_volume: u32,
    pub bid_volume: u32,
    pub ask_volume: u32,
}

/// One decoded record. Prices are in hundredths of a price unit.
#[derive(Clone, Copy, Debug, PartialEq, Eq, Structural)]
pub struct Tick {
    /// Microseconds since the Unix epoch.
    pub timestamp_us: i64,
    pub price: i64,
    pub bid: i64,
    pub ask: i64,
    pub volume: u32,
    pub bid_volume: u32,
    pub ask_volume: u32,
    pub num_trades: u32,
}

/// Why a byte image is not a tick file.
#[derive(Clone, Copy, Debug, PartialEq, Eq, Structural)]
pub enum ScidError {
    /// Shorter than the header.
    TooSmall { len: usize },
    /// The first four bytes are not the marker `SCID`.
    BadMagic,
    /// The bytes after the header are not a whole number of records.
    Misaligned { data_len: usize },
}

/// A validated tick file held in memory, read record by record.
pub struct ScidFile {
    pub data: Vec<u8>,
    pub num_records: usize,
}

pub open spec fn has_magic(b: Seq<u8>) -> bool {
    &&& b.len() >= 4
    &&& b[0] == 0x53u8
    &&& b[1] == 0x43u8
    &&& b[2] == 0x49u8
    &&& b[3] == 0x44u8
}

/// Unsigned little-endian value of the four bytes at `at`.
pub open spec fn le_u32(b: Seq<u8>, at: int) -> int {
    b[at] + 0x100 * b[at + 1] + 0x1_0000 * b[at + 2] + 0x100_0000 * b[at + 3]
}

/// Two's-complement little-endian value of the eight bytes at `at`.
pub open spec fn le_i64(b: Seq<u8>, at: int) -> int {
    let u = le_u32(b, at) + 0x1_0000_0000 * le_u32(b, at + 4);
    if u >= 0x8000_0000_0000_0000 {
        u - 0x1_0000_0000_0000_0000
    } else {
        u
    }
}

/// Value, truncated toward zero, of the single-precision number with the
/// given bits; magnitudes from `PRICE_LIMIT` up, infinities and NaN give 0.
pub open spec fn price_of_bits(bits: u32) -> int {
    let e = (bits / 0x80_0000) as int % 0x100;
    let m = (bits % 0x80_0000) as int + 0x80_0000;
    let mag = if e < 127 || e >= 167 {
        0
    } else if e >= 150 {
        m * pow2((e - 150) as nat)
    } else {
        m / (pow2((150 - e) as nat) as int)
    };
    if bits >= 0x8000_0000 {
        -mag
    } else {
        mag
    }
}

/// File timestamp to Unix microseconds; held at `i64::MIN` below the range.
pub open spec fn unix_us(sc_datetime: i64) -> i64 {
    if sc_datetime - EPOCH_OFFSET_US < i64::MIN {
        i64::MIN
    } else {
        (sc_datetime - EPOCH_OFFSET_US) as i64
    }
}

pub open spec fn record_offset(index: int) -> int {
    HEADER_SIZE + index * RECORD_SIZE
}

pub open spec fn raw_at(b: Seq<u8>, index: int) -> RawScidRecord {
    let at = record_offset(index);
    RawScidRecord {
        sc_datetime: le_i64(b, at) as i64,
        open: le_u32(b, at + 8) as u32,
        high: le_u32(b, at + 12) as u32,
        low: le_u32(b, at + 16) as u32,
        close: le_u32(b, at + 20) as u32,
        num_trades: le_u32(b, at + 24) as u32,
        total_volume: le_u32(b, at + 28) as u32,
        bid_volume: le_u32(b, at + 32) as u32,
        ask_volume: le_u32(b, at + 36) as u32,
    }
}

/// The tick that a record stands for: the close is the price, the low the
/// bid and the high the ask.
pub open spec fn tick_of_raw(r: RawScidRecord) -> Tick {
    Tick {
        timestamp_us: unix_us(r.sc_datetime),
        price: price_of_bits(r.close) as i64,
        bid: price_of_bits(r.low) as i64,
        ask: price_of_bits(r.high) as i64,
        volume: r.total_volume,
        bid_volume: r.bid_volume,
        ask_volume: r.ask_volume,
        num_trades: r.num_trades,
    }
}

/// What `open` asks of a byte image, and which error it gives otherwise.
pub open spec fn open_result(b: Seq<u8>) -> Result<nat, ScidError> {
    if b.len() < HEADER_SIZE {
        Err(ScidError::TooSmall { len: b.len() as usize })
    } else if !has_magic(b) {
        Err(ScidError::BadMagic)
    } else if (b.len() - HEADER_SIZE) % (RECORD_SIZE as int) != 0 {
        Err(ScidError::Misaligned { data_len: (b.len() - HEADER_SIZE) as usize })
    } else {
        Ok(((b.len() - HEADER_SIZE) / (RECORD_SIZE as int)) as nat)
    }
}

fn read_u32(b: &Vec<u8>, at: usize) -> (r: u32)
    requires
        at + 4 <= b@.len(),
        b@.len() <= usize::MAX,
    ensures
        r == le_u32(b@, at as int),
{
    b[at] as u32 + 0x100 * (b[at + 1] as u32) + 0x1_0000 * (b[at + 2] as u32) + 0x100_0000 * (
    b[at + 3] as u32)
}

fn read_i64(b: &Vec<u8>, at: usize) -> (r: i64)
    requires
        at + 8 <= b@.len(),
        b@.len() <= usize::MAX,
    ensures
        r == le_i64(b@, at as int),
{
    let u: u64 = read_u32(b, at) as u64 + 0x1_0000_0000 * (read_u32(b, at + 4) as u64);
    if u >= 0x8000_0000_0000_0000 {
        ((u - 0x8000_0000_0000_0000) as i64) - 0x7fff_ffff_ffff_ffff - 1
    } else {
        u as i64
    }
}

fn decode_price(bits: u32) -> (r: i64)
    ensures
        r == price_of_bits(bits),
        -PRICE_LIMIT < r < PRICE_LIMIT,
{
    let e: u32 = (bits / 0x80_0000) % 0x100;
    let m: u64 = (bits % 0x80_0000) as u64 + 0x80_0000;
    proof {
        lemma2_to64();
    }
    let mag: u64 = if e < 127 || e >= 167 {
        0
    } else if e >= 150 {
        let s: u64 = (e - 150) as u64;
        proof {
            if s < 16 {
                vstd::arithmetic::power2::lemma_pow2_strictly_increases(s as nat, 16);
            }
            assert(m * pow2(s as nat) < 0x100_0000_0000) by (nonlinear_arith)
                requires
                    m < 0x100_0000,
                    pow2(s as nat) <= 0x1_0000,
            ;
            lemma_u64_shl_is_mul(m, s);
        }
        m << s
    } else {
        let s: u64 = (150 - e) as u64;
        proof {
            lemma_u64_shr_is_div(m, s);
            vstd::arithmetic::div_mod::lemma_div_is_ordered_by_denominator(m as int, 1, pow2(s as nat) as int);
            vstd::arithmetic::power2::lemma_pow2_pos(s as nat);
        }
        m >> s
    };
    assert(mag < 0x100_0000_0000);
    if bits >= 0x8000_0000 {
        -(mag as i64)
    } else {
        mag as i64
    }
}

impl ScidFile {
    /// The file's bytes.
    pub open spec fn bytes(&self) -> Seq<u8> {
        self.data@
    }

    pub open spec fn wf(&self) -> bool {
        &&& open_result(self.bytes()) == Ok::<nat, ScidError>(self.num_records as nat)
        &&& self.bytes().len() == HEADER_SIZE + self.num_records * RECORD_SIZE
        &&& self.bytes().len() <= usize::MAX
    }

    /// The decoded ticks, in record order.
    pub open spec fn tick_seq(&self) -> Seq<Tick> {
        Seq::new(self.num_records as nat, |i: int| tick_of_raw(raw_at(self.bytes(), i)))
    }

    /// Validates the image of a tick file: it holds the header, begins with
    /// the marker, and a whole number of records follows the header.
    pub fn open(data: Vec<u8>) -> (r: Result<ScidFile, ScidError>)
        ensures
            r matches Ok(f) ==> f.wf() && f.bytes() == data@,
            r matches Err(e) ==> open_result(data@) == Err::<nat, ScidError>(e),
            open_result(data@) is Ok ==> r is Ok,
    {
        let len = data.len();
        if len < HEADER_SIZE {
            return Err(ScidError::TooSmall { len });
        }
        if !(data[0] == 0x53u8 && data[1] == 0x43u8 && data[2] == 0x49u8 && data[3] == 0x44u8) {
            return Err(ScidError::BadMagic);
        }
        let data_len = len - HEADER_SIZE;
        if data_len % RECORD_SIZE != 0 {
            return Err(ScidError::Misaligned { data_len });
        }
        let num_records = data_len / RECORD_SIZE;
        proof {
            vstd::arithmetic::div_mod::lemma_fundamental_div_mod(data_len as int, RECORD_SIZE as int);
        }
        Ok(ScidFile { data, num_records })
    }

    /// The stored record at `index`.
    pub fn raw_record(&self, index: usize) -> (r: RawScidRecord)
        requires
            self.wf(),
            index < self.num_records,
        ensures
            r == raw_at(self.bytes(), index as int),
    {
        let at = HEADER_SIZE + index * RECORD_SIZE;
        RawScidRecord {
            sc_datetime: read_i64(&self.data, at),
            open: read_u32(&self.data, at + 8),
            high: read_u32(&self.data, at + 12),
            low: read_u32(&self.data, at + 16),
            close: read_u32(&self.data, at + 20),
            num_trades: read_u32(&self.data, at + 24),
            total_volume: read_u32(&self.data, at + 28),
            bid_volume: read_u32(&self.data, at + 32),
            ask_volume: read_u32(&self.data, at + 36),
        }
    }

    /// The decoded tick at `index`.
    pub fn tick(&self, index: usize) -> (r: Tick)
        requires
            self.wf(),
            index < self.num_records,
        ensures
            r == self.tick_seq()[index as int],
    {
        let raw = self.raw_record(index);
        let ts = if raw.sc_datetime < i64::MIN + EPOCH_OFFSET_US {
            i64::MIN
        } else {
            raw.sc_datetime - EPOCH_OFFSET_US
        };
        Tick {
            timestamp_us: ts,
            price: decode_price(raw.close),
            bid: decode_price(raw.low),
            ask: decode_price(raw.high),
            volume: raw.total_volume,
            bid_volume: raw.bid_volume,
            ask_volume: raw.ask_volume,
            num_trades: raw.num_trades,
        }
    }

    /// The decoded tick at `index`, or `None` past the last record.
    pub fn get_tick(&self, index: usize) -> (r: Option<Tick>)
        requires
            self.wf(),
        ensures
            index < self.num_records ==> r == Some(self.tick_seq()[index as int]),
            index >= self.num_records ==> r.is_none(),
    {
        if index < self.num_records {
            Some(self.tick(index))
        } else {
            None
        }
    }

    /// All decoded ticks, in record order.
    pub fn ticks(&self) -> (r: Vec<Tick>)
        requires
            self.wf(),
        ensures
            r@ == self.tick_seq(),
    {
        let mut v: Vec<Tick> = Vec::new();
        let mut i: usize = 0;
        while i < self.num_records
            invariant
                self.wf(),
                i <= self.num_records,
                v@ == self.tick_seq().take(i as int),
            decreases self.num_records - i,
        {
            v.push(self.tick(i));
            i = i + 1;
            assert(v@ =~= self.tick_seq().take(i as int));
        }
        assert(v@ =~= self.tick_seq());
        v
    }
}

} // verus!
