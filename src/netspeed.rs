use vstd::prelude::*;

verus! {

/// Shortest interval, in milliseconds, over which a speed is computed;
/// readings closer together than this report zero to avoid spikes.
pub const MIN_INTERVAL_MS: u64 = 100;

/// Bytes per second moved between two readings of a cumulative counter taken
/// `elapsed_ms` milliseconds apart, saturating at `u64::MAX`. A counter that
/// went down (an interface reset) gives zero for that interval.
pub open spec fn speed_spec(previous: u64, current: u64, elapsed_ms: u64) -> int {
    if current < previous || elapsed_ms == 0 {
        0
    } else {
        let q = (current - previous) * 1000 / (elapsed_ms as int);
        if q > u64::MAX { u64::MAX as int } else { q }
    }
}

/// Transfer speed in bytes per second derived from two counter readings.
pub fn counter_speed(previous: u64, current: u64, elapsed_ms: u64) -> (r: u64)
    ensures
        r == speed_spec(previous, current, elapsed_ms),
{
    if current < previous || elapsed_ms == 0 {
        0
    } else {
        let diff: u128 = (current - previous) as u128;
        assert(diff * 1000 <= u64::MAX as int * 1000) by (nonlinear_arith)
            requires diff <= u64::MAX;
        let scaled: u128 = diff * 1000;
        let q: u128 = scaled / (elapsed_ms as u128);
        if q > u64::MAX as u128 {
            u64::MAX
        } else {
            q as u64
        }
    }
}

/// The totals of the previous reading, against which the next speed is measured.
pub struct NetworkBaseline {
    pub last_rx: u64,
    pub last_tx: u64,
    pub last_ms: u64,
}

impl NetworkBaseline {
    pub fn new(rx: u64, tx: u64, now_ms: u64) -> (r: Self)
        ensures
            r.last_rx == rx,
            r.last_tx == tx,
            r.last_ms == now_ms,
    {
        NetworkBaseline { last_rx: rx, last_tx: tx, last_ms: now_ms }
    }

    /// Receive and transmit speeds since the previous reading. When at least
    /// `MIN_INTERVAL_MS` has passed the reading becomes the new baseline;
    /// otherwise both speeds are zero and the baseline is kept.
    pub fn advance(&mut self, rx: u64, tx: u64, now_ms: u64) -> (r: (u64, u64))
        ensures
            ({
                let elapsed = now_ms - old(self).last_ms;
                if now_ms >= old(self).last_ms && elapsed > MIN_INTERVAL_MS {
                    &&& r.0 == speed_spec(old(self).last_rx, rx, elapsed as u64)
                    &&& r.1 == speed_spec(old(self).last_tx, tx, elapsed as u64)
                    &&& *final(self) == NetworkBaseline::new_spec(rx, tx, now_ms)
                } else {
                    &&& r == (0u64, 0u64)
                    &&& *final(self) == *old(self)
                }
            }),
    {
        if now_ms >= self.last_ms && now_ms - self.last_ms > MIN_INTERVAL_MS {
            let elapsed = now_ms - self.last_ms;
            let rx_speed = counter_speed(self.last_rx, rx, elapsed);
            let tx_speed = counter_speed(self.last_tx, tx, elapsed);
            self.last_rx = rx;
            self.last_tx = tx;
            self.last_ms = now_ms;
            (rx_speed, tx_speed)
        } else {
            (0, 0)
        }
    }

    pub open spec fn new_spec(rx: u64, tx: u64, now_ms: u64) -> NetworkBaseline {
        NetworkBaseline { last_rx: rx, last_tx: tx, last_ms: now_ms }
    }
}

} // verus!
