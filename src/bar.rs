use vstd::prelude::*;
use vstd::arithmetic::div_mod::{
    lemma_div_is_ordered,
    lemma_div_multiples_vanish,
    lemma_fundamental_div_mod_converse,
};
use vstd::arithmetic::mul::lemma_mul_inequality;
use crate::scid::{ScidFile, Tick};

verus! {

/// Microseconds in one second.
pub const MICROS_PER_SECOND: i64 = 1_000_000;

/// Width of a bar in seconds.
#[derive(Clone, Copy, Debug)]
pub struct BarInterval(pub u64);

/// The bar widths that a textual selector may name, in seconds.
pub open spec fn interval_of(s: Seq<char>) -> Option<u64> {
    if s == seq!['1', 's'] {
        Some(1u64)
    } else if s == seq!['5', 's'] {
        Some(5u64)
    } else if s == seq!['1', '0', 's'] {
        Some(10u64)
    } else if s == seq!['3', '0', 's'] {
        Some(30u64)
    } else if s == seq!['1', 'm'] {
        Some(60u64)
    } else if s == seq!['3', 'm'] {
        Some(180u64)
    } else if s == seq!['5', 'm'] {
        Some(300u64)
    } else if s == seq!['1', '5', 'm'] {
        Some(900u64)
    } else if s == seq!['3', '0', 'm'] {
        Some(1800u64)
    } else if s == seq!['1', 'h'] {
        Some(3600u64)
    } else if s == seq!['4', 'h'] {
        Some(14400u64)
    } else if s == seq!['1', 'd'] {
        Some(86400u64)
    } else {
        None
    }
}

/// Start, in microseconds since the Unix epoch, of the bar of width
/// `interval` seconds that holds the instant `t`: whole seconds are floored,
/// then floored to a multiple of the width counted from the epoch. A start
/// below the range of `i64` is held at `i64::MIN`.
pub open spec fn bucket_start(t: int, interval: int) -> int {
    let b = (t / 1_000_000) / interval * interval * 1_000_000;
    if b < i64::MIN {
        i64::MIN as int
    } else {
        b
    }
}

/// Error of an unknown interval selector.
#[derive(Clone, Debug, PartialEq, Eq)]
pub struct UnknownInterval {
    pub selector: String,
}

fn str_equals(s: &str, lit: &str) -> (r: bool)
    ensures
        r == (s@ == lit@),
{
    let n = s.unicode_len();
    if n != lit.unicode_len() {
        return false;
    }
    let mut i: usize = 0;
    while i < n
        invariant
            n == s@.len(),
            n == lit@.len(),
            i <= n,
            forall|j: int| 0 <= j < i ==> s@[j] == lit@[j],
        decreases n - i,
    {
        if s.get_char(i) != lit.get_char(i) {
            return false;
        }
        i = i + 1;
    }
    assert(s@ =~= lit@);
    true
}

/// Floor of `a / d` for a positive divisor, whatever the sign of `a`.
fn floor_div(a: i64, d: u64) -> (q: i64)
    requires
        d > 0,
    ensures
        q == (a as int) / (d as int),
{
    if a >= 0 {
        ((a as u64) / d) as i64
    } else {
        let m: u64 = (-(a + 1)) as u64;
        let k: u64 = m / d;
        proof {
            let r = m as int % d as int;
            vstd::arithmetic::div_mod::lemma_fundamental_div_mod(m as int, d as int);
            assert(m as int == d as int * k as int + r);
            assert(a as int == (-(k as int) - 1) * d as int + (d as int - r - 1)) by (nonlinear_arith)
                requires
                    m as int == d as int * k as int + r,
                    a as int == -(m as int) - 1,
            ;
            lemma_fundamental_div_mod_converse(
                a as int,
                d as int,
                -(k as int) - 1,
                d as int - r - 1,
            );
        }
        -(k as i64) - 1
    }
}

impl BarInterval {
    /// Parses a selector from the fixed set of supported widths.
    pub fn from_str(s: &str) -> (r: Result<BarInterval, UnknownInterval>)
        ensures
            r matches Ok(iv) ==> interval_of(s@) == Some(iv.0),
            r matches Err(e) ==> interval_of(s@).is_none() && e.selector@ == s@,
            interval_of(s@).is_some() ==> r.is_ok(),
    {
        proof {
            reveal_strlit("1s");
            assert("1s"@ =~= seq!['1', 's']);
            reveal_strlit("5s");
            assert("5s"@ =~= seq!['5', 's']);
            reveal_strlit("10s");
            assert("10s"@ =~= seq!['1', '0', 's']);
            reveal_strlit("30s");
            assert("30s"@ =~= seq!['3', '0', 's']);
            reveal_strlit("1m");
            assert("1m"@ =~= seq!['1', 'm']);
            reveal_strlit("3m");
            assert("3m"@ =~= seq!['3', 'm']);
            reveal_strlit("5m");
            assert("5m"@ =~= seq!['5', 'm']);
            reveal_strlit("15m");
            assert("15m"@ =~= seq!['1', '5', 'm']);
            reveal_strlit("30m");
            assert("30m"@ =~= seq!['3', '0', 'm']);
            reveal_strlit("1h");
            assert("1h"@ =~= seq!['1', 'h']);
            reveal_strlit("4h");
            assert("4h"@ =~= seq!['4', 'h']);
            reveal_strlit("1d");
            assert("1d"@ =~= seq!['1', 'd']);
        }
        if str_equals(s, "1s") {
            Ok(BarInterval(1))
        } else if str_equals(s, "5s") {
            Ok(BarInterval(5))
        } else if str_equals(s, "10s") {
            Ok(BarInterval(10))
        } else if str_equals(s, "30s") {
            Ok(BarInterval(30))
        } else if str_equals(s, "1m") {
            Ok(BarInterval(60))
        } else if str_equals(s, "3m") {
            Ok(BarInterval(180))
        } else if str_equals(s, "5m") {
            Ok(BarInterval(300))
        } else if str_equals(s, "15m") {
            Ok(BarInterval(900))
        } else if str_equals(s, "30m") {
            Ok(BarInterval(1800))
        } else if str_equals(s, "1h") {
            Ok(BarInterval(3600))
        } else if str_equals(s, "4h") {
            Ok(BarInterval(14400))
        } else if str_equals(s, "1d") {
            Ok(BarInterval(86400))
        } else {
            Err(UnknownInterval { selector: String::from_str(s) })
        }
    }

    /// Start of the bar that holds the timestamp (microseconds since the
    /// Unix epoch).
    pub fn bar_start(&self, timestamp_us: i64) -> (r: i64)
        requires
            self.0 > 0,
        ensures
            r == bucket_start(timestamp_us as int, self.0 as int),
    {
        let secs = floor_div(timestamp_us, 1_000_000);
        let q = floor_div(secs, self.0);
        proof {
            assert(secs as int * 1_000_000 <= timestamp_us);
            assert(q as int * self.0 as int <= secs) by {
                vstd::arithmetic::div_mod::lemma_fundamental_div_mod(secs as int, self.0 as int);
            }
            assert(q as int * self.0 as int > secs - self.0) by {
                vstd::arithmetic::div_mod::lemma_fundamental_div_mod(secs as int, self.0 as int);
            }
        }
        let b: i128 = (q as i128) * (self.0 as i128) * 1_000_000;
        if b < i64::MIN as i128 {
            i64::MIN
        } else {
            b as i64
        }
    }
}

/// Largest number of ticks aggregated in one call; it keeps every sum of
/// `u32` fields of one bar within `u64`.
pub const MAX_TICKS: usize = 0xffff_ffff;

/// Ticks aggregated over one interval. Prices are in hundredths of a price
/// unit.
#[derive(Clone, Copy, Debug, PartialEq, Eq, Structural)]
pub struct Bar {
    /// Start of the interval, microseconds since the Unix epoch.
    pub timestamp_us: i64,
    pub open: i64,
    pub high: i64,
    pub low: i64,
    pub close: i64,
    pub volume: u64,
    pub bid_volume: u64,
    pub ask_volume: u64,
    pub num_trades: u64,
}

/// A tick takes part in a bar only with a positive price.
pub open spec fn is_valid_tick(t: Tick) -> bool {
    t.price > 0
}

pub open spec fn bar_of_tick(t: Tick, start: i64) -> Bar {
    Bar {
        timestamp_us: start,
        open: t.price,
        high: t.price,
        low: t.price,
        close: t.price,
        volume: t.volume as u64,
        bid_volume: t.bid_volume as u64,
        ask_volume: t.ask_volume as u64,
        num_trades: t.num_trades as u64,
    }
}

pub open spec fn extend_bar(b: Bar, t: Tick) -> Bar {
    Bar {
        timestamp_us: b.timestamp_us,
        open: b.open,
        high: if t.price > b.high { t.price } else { b.high },
        low: if t.price < b.low { t.price } else { b.low },
        close: t.price,
        volume: (b.volume + t.volume) as u64,
        bid_volume: (b.bid_volume + t.bid_volume) as u64,
        ask_volume: (b.ask_volume + t.ask_volume) as u64,
        num_trades: (b.num_trades + t.num_trades) as u64,
    }
}

/// The bars closed so far and the bar still open after one more tick: a
/// valid tick whose bucket differs from the open bar's closes that bar and
/// opens a new one; one in the same bucket extends it; an invalid one
/// changes nothing.
pub open spec fn feed_state(state: (Seq<Bar>, Option<Bar>), t: Tick, interval: int) -> (
    Seq<Bar>,
    Option<Bar>,
) {
    let (done, open) = state;
    if !is_valid_tick(t) {
        (done, open)
    } else {
        let start = bucket_start(t.timestamp_us as int, interval) as i64;
        match open {
            None => (done, Some(bar_of_tick(t, start))),
            Some(b) => if b.timestamp_us == start {
                (done, Some(extend_bar(b, t)))
            } else {
                (done.push(b), Some(bar_of_tick(t, start)))
            },
        }
    }
}

/// The bars closed and the bar still open after reading `ticks` in order.
pub open spec fn aggregate_state(ticks: Seq<Tick>, interval: int) -> (Seq<Bar>, Option<Bar>)
    decreases ticks.len(),
{
    if ticks.len() == 0 {
        (Seq::empty(), None)
    } else {
        feed_state(aggregate_state(ticks.drop_last(), interval), ticks.last(), interval)
    }
}

/// The bars of `ticks` over intervals of `interval` seconds, the last open
/// bar included.
pub open spec fn aggregate(ticks: Seq<Tick>, interval: int) -> Seq<Bar> {
    let (done, open) = aggregate_state(ticks, interval);
    match open {
        Some(b) => done.push(b),
        None => done,
    }
}

pub open spec fn sums_within(open: Option<Bar>, bound: int) -> bool {
    open matches Some(b) ==> {
        &&& b.volume <= bound
        &&& b.bid_volume <= bound
        &&& b.ask_volume <= bound
        &&& b.num_trades <= bound
    }
}

/// Reads one tick: closes the open bar into `bars` where the tick starts a
/// new one, and returns the bar left open.
fn feed(bars: &mut Vec<Bar>, open: Option<Bar>, t: Tick, interval: BarInterval, Ghost(k): Ghost<
    int,
>) -> (r: Option<Bar>)
    requires
        interval.0 > 0,
        0 <= k < MAX_TICKS,
        sums_within(open, k * 0xffff_ffff),
    ensures
        (final(bars)@, r) == feed_state((old(bars)@, open), t, interval.0 as int),
        sums_within(r, (k + 1) * 0xffff_ffff),
{
    if t.price <= 0 {
        return open;
    }
    let start = interval.bar_start(t.timestamp_us);
    match open {
        Some(b) => {
            if b.timestamp_us == start {
                Some(
                    Bar {
                        timestamp_us: b.timestamp_us,
                        open: b.open,
                        high: if t.price > b.high { t.price } else { b.high },
                        low: if t.price < b.low { t.price } else { b.low },
                        close: t.price,
                        volume: b.volume + t.volume as u64,
                        bid_volume: b.bid_volume + t.bid_volume as u64,
                        ask_volume: b.ask_volume + t.ask_volume as u64,
                        num_trades: b.num_trades + t.num_trades as u64,
                    },
                )
            } else {
                bars.push(b);
                Some(new_bar(t, start))
            }
        },
        None => Some(new_bar(t, start)),
    }
}

/// Aggregates ticks, in order, into bars of the given width.
pub fn aggregate_ticks(ticks: &Vec<Tick>, interval: BarInterval) -> (r: Vec<Bar>)
    requires
        interval.0 > 0,
        ticks@.len() <= MAX_TICKS,
    ensures
        r@ == aggregate(ticks@, interval.0 as int),
{
    let ghost iv = interval.0 as int;
    let mut bars: Vec<Bar> = Vec::new();
    let mut open: Option<Bar> = None;
    let n = ticks.len();
    let mut i: usize = 0;
    while i < n
        invariant
            interval.0 > 0,
            iv == interval.0 as int,
            n == ticks@.len(),
            n <= MAX_TICKS,
            i <= n,
            (bars@, open) == aggregate_state(ticks@.take(i as int), iv),
            sums_within(open, i * 0xffff_ffff),
        decreases n - i,
    {
        let t = ticks[i];
        proof {
            let s = ticks@.take(i as int + 1);
            assert(s.drop_last() =~= ticks@.take(i as int));
            assert(s.last() == t);
        }
        open = feed(&mut bars, open, t, interval, Ghost(i as int));
        i = i + 1;
    }
    assert(ticks@.take(n as int) =~= ticks@);
    if let Some(b) = open {
        bars.push(b);
    }
    bars
}

fn new_bar(t: Tick, start: i64) -> (r: Bar)
    ensures
        r == bar_of_tick(t, start),
{
    Bar {
        timestamp_us: start,
        open: t.price,
        high: t.price,
        low: t.price,
        close: t.price,
        volume: t.volume as u64,
        bid_volume: t.bid_volume as u64,
        ask_volume: t.ask_volume as u64,
        num_trades: t.num_trades as u64,
    }
}

/// Aggregates the ticks of a tick file, in record order, into bars of the
/// given width, decoding one record at a time.
pub fn aggregate_bars(scid: &ScidFile, interval: BarInterval) -> (r: Vec<Bar>)
    requires
        scid.wf(),
        interval.0 > 0,
        scid.num_records <= MAX_TICKS,
    ensures
        r@ == aggregate(scid.tick_seq(), interval.0 as int),
{
    let ghost iv = interval.0 as int;
    let ghost ticks = scid.tick_seq();
    let mut bars: Vec<Bar> = Vec::new();
    let mut open: Option<Bar> = None;
    let n = scid.num_records;
    let mut i: usize = 0;
    while i < n
        invariant
            scid.wf(),
            interval.0 > 0,
            iv == interval.0 as int,
            ticks == scid.tick_seq(),
            n == ticks.len(),
            n <= MAX_TICKS,
            i <= n,
            (bars@, open) == aggregate_state(ticks.take(i as int), iv),
            sums_within(open, i * 0xffff_ffff),
        decreases n - i,
    {
        let t = scid.tick(i);
        proof {
            let s = ticks.take(i as int + 1);
            assert(s.drop_last() =~= ticks.take(i as int));
            assert(s.last() == t);
        }
        open = feed(&mut bars, open, t, interval, Ghost(i as int));
        i = i + 1;
    }
    assert(ticks.take(n as int) =~= ticks);
    if let Some(b) = open {
        bars.push(b);
    }
    bars
}

/// Total volume of a bar sequence.
pub open spec fn bars_volume(bars: Seq<Bar>) -> int
    decreases bars.len(),
{
    if bars.len() == 0 {
        0
    } else {
        bars_volume(bars.drop_last()) + bars.last().volume
    }
}

/// Total volume of the ticks with a positive price.
pub open spec fn valid_volume(ticks: Seq<Tick>) -> int
    decreases ticks.len(),
{
    if ticks.len() == 0 {
        0
    } else {
        valid_volume(ticks.drop_last()) + if is_valid_tick(ticks.last()) {
            ticks.last().volume as int
        } else {
            0
        }
    }
}

/// Bucketing by whole seconds: the start of a timestamp that is a whole
/// second `s` is `floor(s / interval) * interval` seconds, unless that lies
/// below the range of `i64`.
pub proof fn lemma_bucket_whole_seconds(s: int, interval: int)
    requires
        interval > 0,
        (s / interval) * interval * 1_000_000 >= i64::MIN,
    ensures
        bucket_start(s * 1_000_000, interval) == (s / interval) * interval * 1_000_000,
{
    lemma_div_multiples_vanish(s, 1_000_000);
    assert(s * 1_000_000 == 1_000_000 * s);
}

/// Bucketing is idempotent: the start of a bar is its own bucket.
pub proof fn lemma_bucket_idempotent(t: int, interval: int)
    requires
        interval > 0,
    ensures
        bucket_start(bucket_start(t, interval), interval) == bucket_start(t, interval),
{
    let q = (t / 1_000_000) / interval;
    let b = q * interval * 1_000_000;
    if b >= i64::MIN {
        assert(b == 1_000_000 * (q * interval)) by (nonlinear_arith)
            requires
                b == q * interval * 1_000_000,
        ;
        lemma_div_multiples_vanish(q * interval, 1_000_000);
        assert(q * interval == interval * q) by (nonlinear_arith);
        lemma_div_multiples_vanish(q, interval);
    } else {
        let m = i64::MIN as int;
        let q2 = (m / 1_000_000) / interval;
        vstd::arithmetic::div_mod::lemma_fundamental_div_mod(m / 1_000_000, interval);
        assert(q2 * interval <= m / 1_000_000) by (nonlinear_arith)
            requires
                q2 == (m / 1_000_000) / interval,
                m / 1_000_000 == interval * q2 + (m / 1_000_000) % interval,
                (m / 1_000_000) % interval >= 0,
        ;
        assert(m / 1_000_000 == -9223372036855);
        assert(q2 * interval * 1_000_000 < m) by (nonlinear_arith)
            requires
                q2 * interval <= -9223372036855,
                m == -9223372036854775808,
        ;
    }
}

/// Bucketing is monotonic: a later instant never falls in an earlier bar.
pub proof fn lemma_bucket_monotonic(t: int, u: int, interval: int)
    requires
        interval > 0,
        t <= u,
    ensures
        bucket_start(t, interval) <= bucket_start(u, interval),
{
    lemma_div_is_ordered(t, u, 1_000_000);
    lemma_div_is_ordered(t / 1_000_000, u / 1_000_000, interval);
    lemma_mul_inequality((t / 1_000_000) / interval, (u / 1_000_000) / interval, interval);
    lemma_mul_inequality(
        (t / 1_000_000) / interval * interval,
        (u / 1_000_000) / interval * interval,
        1_000_000,
    );
}

proof fn lemma_state_volume(ticks: Seq<Tick>, interval: int)
    requires
        interval > 0,
        ticks.len() <= MAX_TICKS,
    ensures
        ({
            let (done, open) = aggregate_state(ticks, interval);
            &&& bars_volume(done) + (match open {
                Some(b) => b.volume as int,
                None => 0,
            }) == valid_volume(ticks)
            &&& open matches Some(b) ==> b.volume <= ticks.len() * 0xffff_ffff
        }),
    decreases ticks.len(),
{
    if ticks.len() > 0 {
        let prev = ticks.drop_last();
        lemma_state_volume(prev, interval);
        let (done, open) = aggregate_state(prev, interval);
        if let Some(b) = open {
            assert(done.push(b).drop_last() =~= done);
        }
    }
}

/// Aggregation keeps volume: the bars' volumes sum to the volume of the
/// ticks with a positive price.
pub proof fn lemma_aggregate_keeps_volume(ticks: Seq<Tick>, interval: int)
    requires
        interval > 0,
        ticks.len() <= MAX_TICKS,
    ensures
        bars_volume(aggregate(ticks, interval)) == valid_volume(ticks),
{
    lemma_state_volume(ticks, interval);
    let (done, open) = aggregate_state(ticks, interval);
    if let Some(b) = open {
        assert(done.push(b).drop_last() =~= done);
    }
}

/// No ticks give no bars.
pub proof fn lemma_aggregate_empty(interval: int)
    ensures
        aggregate(Seq::<Tick>::empty(), interval) == Seq::<Bar>::empty(),
{
}

/// One valid tick gives exactly one bar, whose open, high, low and close are
/// the tick's price.
pub proof fn lemma_aggregate_single(t: Tick, interval: int)
    requires
        interval > 0,
        is_valid_tick(t),
    ensures
        aggregate(seq![t], interval).len() == 1,
        aggregate(seq![t], interval)[0] == bar_of_tick(t, bucket_start(t.timestamp_us as int, interval) as i64),
        aggregate(seq![t], interval)[0].open == t.price,
        aggregate(seq![t], interval)[0].high == t.price,
        aggregate(seq![t], interval)[0].low == t.price,
        aggregate(seq![t], interval)[0].close == t.price,
{
    let s = seq![t];
    assert(s.drop_last() =~= Seq::<Tick>::empty());
    assert(s.last() == t);
    assert(aggregate_state(Seq::<Tick>::empty(), interval) == (Seq::<Bar>::empty(), None::<Bar>));
    let b = bar_of_tick(t, bucket_start(t.timestamp_us as int, interval) as i64);
    assert(aggregate_state(s, interval) == (Seq::<Bar>::empty(), Some(b)));
    assert(aggregate(s, interval) =~= seq![b]);
}

/// Open and close lie between low and high.
pub open spec fn bar_is_ordered(b: Bar) -> bool {
    b.low <= b.open <= b.high && b.low <= b.close <= b.high
}

proof fn lemma_state_ordered(ticks: Seq<Tick>, interval: int)
    ensures
        ({
            let (done, open) = aggregate_state(ticks, interval);
            &&& forall|j: int| 0 <= j < done.len() ==> bar_is_ordered(#[trigger] done[j])
            &&& open matches Some(b) ==> bar_is_ordered(b)
        }),
    decreases ticks.len(),
{
    if ticks.len() > 0 {
        lemma_state_ordered(ticks.drop_last(), interval);
        let (done, open) = aggregate_state(ticks.drop_last(), interval);
        if let Some(b) = open {
            assert forall|j: int| 0 <= j < done.len() + 1 implies bar_is_ordered(
                #[trigger] done.push(b)[j],
            ) by {
                if j < done.len() {
                    assert(done.push(b)[j] == done[j]);
                }
            }
        }
    }
}

/// Every bar that aggregation gives has its open and close between its low
/// and its high.
pub proof fn lemma_aggregate_bars_ordered(ticks: Seq<Tick>, interval: int)
    ensures
        forall|j: int|
            0 <= j < aggregate(ticks, interval).len() ==> bar_is_ordered(
                #[trigger] aggregate(ticks, interval)[j],
            ),
{
    lemma_state_ordered(ticks, interval);
    let (done, open) = aggregate_state(ticks, interval);
    if let Some(b) = open {
        assert forall|j: int| 0 <= j < done.len() + 1 implies bar_is_ordered(
            #[trigger] done.push(b)[j],
        ) by {
            if j < done.len() {
                assert(done.push(b)[j] == done[j]);
            }
        }
    }
}

} // verus!
