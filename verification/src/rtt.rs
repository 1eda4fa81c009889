use vstd::prelude::*;
use crate::constants::IKCP_RTO_MAX;

verus! {

/// The signed distance from `earlier` to `later` on the 32-bit clock, which
/// wraps around.
pub open spec fn time_diff_spec(later: u32, earlier: u32) -> int {
    let d = if later >= earlier {
        later - earlier
    } else {
        later - earlier + 0x1_0000_0000
    };
    if d >= 0x8000_0000 {
        d - 0x1_0000_0000
    } else {
        d
    }
}

/// The signed distance from `earlier` to `later` on the 32-bit clock.
pub fn time_diff(later: u32, earlier: u32) -> (r: i32)
    ensures
        r as int == time_diff_spec(later, earlier),
{
    let d: u32 = later.wrapping_sub(earlier);
    if d >= 0x8000_0000 {
        let back: u32 = (u32::MAX - d) + 1;
        if back == 0x8000_0000 {
            i32::MIN
        } else {
            0 - (back as i32)
        }
    } else {
        d as i32
    }
}

/// The smoothed round-trip time after a sample: the sample itself where it
/// is the first, else one eighth of the way from the old estimate towards
/// the sample, rounded towards the old estimate.
pub open spec fn srtt_next(srtt: int, rtt: int) -> int {
    if srtt == 0 {
        rtt
    } else if rtt >= srtt {
        srtt + (rtt - srtt) / 8
    } else {
        srtt - (srtt - rtt) / 8
    }
}

/// The round-trip variance after a sample: half the sample where it is the
/// first, else one quarter of the way from the old variance towards the
/// distance between sample and old estimate; never below 1.
pub open spec fn rttval_next(srtt: int, rttval: int, rtt: int) -> int {
    let v = if srtt == 0 {
        rtt / 2
    } else {
        let delta = if rtt >= srtt {
            rtt - srtt
        } else {
            srtt - rtt
        };
        if delta >= rttval {
            rttval + (delta - rttval) / 4
        } else {
            rttval - (rttval - delta) / 4
        }
    };
    if v < 1 {
        1
    } else {
        v
    }
}

/// The retransmission timeout for given estimates: the smoothed round-trip
/// time plus the larger of the tick interval and four times the variance,
/// raised to `minrto` and then capped.
pub open spec fn rto_of(srtt: int, rttval: int, interval: u32, minrto: u32) -> int {
    let spread = if interval as int > 4 * rttval {
        interval as int
    } else {
        4 * rttval
    };
    let raw = srtt + spread;
    let raised = if raw < minrto {
        minrto as int
    } else {
        raw
    };
    if raised > IKCP_RTO_MAX {
        IKCP_RTO_MAX as int
    } else {
        raised
    }
}

/// The estimates and the timeout after a round-trip sample.
pub fn rtt_sample(srtt: i32, rttval: i32, rtt: i32, interval: u32, minrto: u32) -> (r: (
    i32,
    i32,
    u32,
))
    requires
        srtt >= 0,
        rttval >= 0,
        rtt >= 0,
    ensures
        r.0 as int == srtt_next(srtt as int, rtt as int),
        r.1 as int == rttval_next(srtt as int, rttval as int, rtt as int),
        r.2 as int == rto_of(r.0 as int, r.1 as int, interval, minrto),
        r.0 >= 0,
        r.1 >= 1,
        r.2 <= IKCP_RTO_MAX,
{
    let mut s: i32 = srtt;
    let mut v: i32 = rttval;
    if srtt == 0 {
        s = rtt;
        v = rtt / 2;
    } else {
        let delta: i32 = if rtt >= srtt {
            s = srtt + (rtt - srtt) / 8;
            rtt - srtt
        } else {
            s = srtt - (srtt - rtt) / 8;
            srtt - rtt
        };
        if delta >= rttval {
            v = rttval + (delta - rttval) / 4;
        } else {
            v = rttval - (rttval - delta) / 4;
        }
    }
    if v < 1 {
        v = 1;
    }
    let spread: u64 = if interval as u64 > 4 * (v as u64) {
        interval as u64
    } else {
        4 * (v as u64)
    };
    let raw: u64 = s as u64 + spread;
    let raised: u64 = if raw < minrto as u64 {
        minrto as u64
    } else {
        raw
    };
    let rto: u32 = if raised > IKCP_RTO_MAX as u64 {
        IKCP_RTO_MAX
    } else {
        raised as u32
    };
    (s, v, rto)
}

/// The congestion window and its byte count after an acknowledgement moved
/// the oldest unacknowledged sequence number forward. Below the slow-start
/// threshold the window grows by one segment; above it the byte count grows
/// by about one segment per window, and the window follows once a whole
/// segment more is counted. A window that has reached the remote window
/// does not grow. The byte count stops at `u32::MAX`.
pub open spec fn cwnd_grown(cwnd: u32, incr: u32, ssthresh: u32, rmt_wnd: u32, mss: u32) -> (u32, u32) {
    if cwnd >= rmt_wnd {
        (cwnd, incr)
    } else if cwnd < ssthresh {
        ((cwnd + 1) as u32, capped(incr + mss))
    } else {
        let base = if incr < mss {
            mss as int
        } else {
            incr as int
        };
        let next = base + (mss * mss) / base + mss / 16;
        (
            if (cwnd + 1) * mss <= next {
                (cwnd + 1) as u32
            } else {
                cwnd
            },
            capped(next),
        )
    }
}

/// `x`, or `u32::MAX` where `x` is larger.
pub open spec fn capped(x: int) -> u32 {
    if x > u32::MAX {
        u32::MAX
    } else {
        x as u32
    }
}

/// Computes `cwnd_grown`.
pub fn grow_cwnd(cwnd: u32, incr: u32, ssthresh: u32, rmt_wnd: u32, mss: u32) -> (r: (u32, u32))
    requires
        mss > 0,
    ensures
        r == cwnd_grown(cwnd, incr, ssthresh, rmt_wnd, mss),
        r.0 >= cwnd,
        r.0 <= cwnd + 1,
{
    if cwnd >= rmt_wnd {
        return (cwnd, incr);
    }
    if cwnd < ssthresh {
        let sum: u64 = incr as u64 + mss as u64;
        let capped_sum: u32 = if sum > u32::MAX as u64 {
            u32::MAX
        } else {
            sum as u32
        };
        return (cwnd + 1, capped_sum);
    }
    let base: u64 = if incr < mss {
        mss as u64
    } else {
        incr as u64
    };
    let m: u64 = mss as u64;
    assert(m * m <= 0xffff_ffff * 0xffff_ffff) by (nonlinear_arith)
        requires
            m <= 0xffff_ffff,
    ;
    let sq: u64 = m * m;
    let step: u64 = sq / base;
    assert(step <= sq) by (nonlinear_arith)
        requires
            step == sq / base,
            base >= 1,
            sq >= 0,
    ;
    let next: u64 = base + step + m / 16;
    let c1: u64 = cwnd as u64 + 1;
    assert(c1 * m <= 0x1_0000_0000 * 0xffff_ffff) by (nonlinear_arith)
        requires
            c1 <= 0x1_0000_0000,
            m <= 0xffff_ffff,
    ;
    let new_cwnd: u32 = if c1 * m <= next {
        cwnd + 1
    } else {
        cwnd
    };
    let new_incr: u32 = if next > u32::MAX as u64 {
        u32::MAX
    } else {
        next as u32
    };
    (new_cwnd, new_incr)
}

} // verus!
