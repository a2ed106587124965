//! Probe arithmetic: turning raw connection timing and socket-buffer
//! readings into a bandwidth estimate.
//!
//! All durations are in microseconds and all rates in bits per second,
//! as plain integers. The callers that perform the actual socket work
//! hand the raw readings in and take the derived figures back.
//!
//! The estimate is the raw window-over-round-trip arithmetic with no
//! built-in efficiency discount: systematic bias, protocol overhead
//! included, is what the correction store's render-time multiplier is
//! for (an operator who wants a fixed discount sets a factor such as
//! `0.75`).

use vstd::prelude::*;

verus! {

/// Microseconds per second, the resolution of every duration here.
pub const MICROS_PER_SEC: u64 = 1_000_000;

/// Bandwidth estimate for an effective window of `window_bytes` bytes
/// and a round-trip time of `rtt_micros` microseconds: the window can
/// be in flight once per round trip, so the rate is `window * 8`
/// bits over `rtt` seconds. An unmeasurable (zero) round-trip time
/// yields exactly zero rather than a division fault.
pub open spec fn spec_throughput_bits_per_second(window_bytes: nat, rtt_micros: nat) -> nat {
    if rtt_micros == 0 {
        0
    } else {
        (window_bytes * 8 * (MICROS_PER_SEC as nat)) / rtt_micros
    }
}

/// Computes the bandwidth estimate in bits per second.
///
/// The result is always a finite, non-negative integer; a zero
/// round-trip time gives exactly zero.
pub fn throughput_bits_per_second(window_bytes: u32, rtt_micros: u64) -> (bps: u64)
    ensures
        bps == spec_throughput_bits_per_second(window_bytes as nat, rtt_micros as nat),
        rtt_micros == 0 ==> bps == 0,
{
    if rtt_micros == 0 {
        0
    } else {
        let bits: u64 = (window_bytes as u64) * 8 * MICROS_PER_SEC;
        bits / rtt_micros
    }
}

/// The estimate applies the formula `window * 8 / rtt` exactly, with
/// no rounding beyond the integer quotient: whenever the round-trip
/// time divides the window's bits-per-second product, multiplying
/// the estimate back by the round-trip time recovers the product in
/// full.
pub proof fn lemma_throughput_exact(window_bytes: nat, rtt_micros: nat)
    requires
        rtt_micros > 0,
        (window_bytes * 8 * (MICROS_PER_SEC as nat)) % rtt_micros == 0,
    ensures
        spec_throughput_bits_per_second(window_bytes, rtt_micros) * rtt_micros == window_bytes * 8
            * (MICROS_PER_SEC as nat),
{
    let product = window_bytes * 8 * (MICROS_PER_SEC as nat);
    assert(spec_throughput_bits_per_second(window_bytes, rtt_micros) == product / rtt_micros);
    vstd::arithmetic::div_mod::lemma_fundamental_div_mod(product as int, rtt_micros as int);
    assert(product == (rtt_micros as int) * ((product as int) / (rtt_micros as int)) + (
    product as int) % (rtt_micros as int));
    assert((product as int) / (rtt_micros as int) == product / rtt_micros);
    assert((product as int) % (rtt_micros as int) == product % rtt_micros);
}

/// Outcome of the OS's TCP-state introspection, reduced to the one
/// field the estimator reads: the smoothed round-trip time in
/// microseconds. The query either failed outright or reported a
/// value; a reported zero means "not yet measured" and is treated
/// as absent.
pub fn get_tcp_info_rtt(query_succeeded: bool, smoothed_rtt_micros: u32) -> (rtt: Option<u64>)
    ensures
        rtt == (if query_succeeded && smoothed_rtt_micros > 0 {
            Some(smoothed_rtt_micros as u64)
        } else {
            None::<u64>
        }),
{
    if query_succeeded && smoothed_rtt_micros > 0 {
        Some(smoothed_rtt_micros as u64)
    } else {
        None
    }
}

/// Round-trip time the estimate rests on: the OS-reported smoothed
/// value when introspection yielded one, else half the measured
/// handshake duration (SYN to SYN-ACK is roughly half of the full
/// three-way-handshake wall time).
pub open spec fn spec_chosen_rtt_micros(connect_micros: u64, reported: Option<u64>) -> u64 {
    match reported {
        Some(r) => r,
        None => connect_micros / 2,
    }
}

/// Picks the round-trip time for the estimate (see
/// [`spec_chosen_rtt_micros`]).
pub fn chosen_rtt_micros(connect_micros: u64, reported: Option<u64>) -> (rtt: u64)
    ensures
        rtt == spec_chosen_rtt_micros(connect_micros, reported),
{
    match reported {
        Some(r) => r,
        None => connect_micros / 2,
    }
}

/// Usable size of a socket buffer whose reported size is `reported`
/// bytes. A platform that doubles the figure for internal bookkeeping
/// has it halved back; a non-positive report carries no usable
/// buffer.
pub open spec fn spec_usable_buffer_bytes(reported: i32, reports_doubled: bool) -> u32 {
    if reported <= 0 {
        0
    } else if reports_doubled {
        (reported / 2) as u32
    } else {
        reported as u32
    }
}

/// Adjusts one reported socket-buffer size to its usable value (see
/// [`spec_usable_buffer_bytes`]).
pub fn usable_buffer_bytes(reported: i32, reports_doubled: bool) -> (usable: u32)
    ensures
        usable == spec_usable_buffer_bytes(reported, reports_doubled),
{
    if reported <= 0 {
        0
    } else if reports_doubled {
        (reported / 2) as u32
    } else {
        reported as u32
    }
}

/// Effective window: the smaller of the usable receive and send
/// buffers when both are known, else the receive buffer alone (the
/// send-buffer query may fail without failing the probe).
pub open spec fn spec_effective_window(rcv: u32, snd: Option<u32>) -> u32 {
    match snd {
        Some(s) => if s < rcv {
            s
        } else {
            rcv
        },
        None => rcv,
    }
}

/// Picks the effective window (see [`spec_effective_window`]).
pub fn effective_window(rcv: u32, snd: Option<u32>) -> (w: u32)
    ensures
        w == spec_effective_window(rcv, snd),
{
    match snd {
        Some(s) => if s < rcv {
            s
        } else {
            rcv
        },
        None => rcv,
    }
}

/// What one successful probe yields: the round-trip time the
/// estimate rests on and the effective window in bytes.
#[derive(Clone, Copy, PartialEq, Eq, Structural, Debug)]
pub struct ProbeResult {
    pub rtt_micros: u64,
    pub window_bytes: u32,
}

impl ProbeResult {
    /// The bandwidth this result stands for, in bits per second.
    pub open spec fn spec_bits_per_second(self) -> nat {
        spec_throughput_bits_per_second(self.window_bytes as nat, self.rtt_micros as nat)
    }

    /// Computes the bandwidth this result stands for.
    pub fn bits_per_second(&self) -> (bps: u64)
        ensures
            bps == self.spec_bits_per_second(),
    {
        throughput_bits_per_second(self.window_bytes, self.rtt_micros)
    }
}

/// Assembles a probe result from the raw readings of one connection
/// attempt: the measured handshake duration, the smoothed round-trip
/// time if TCP introspection reported one, the reported
/// receive-buffer size, the reported send-buffer size if that query
/// succeeded, and whether the platform doubles reported buffer
/// sizes.
pub fn derive_probe_result(
    connect_micros: u64,
    reported_rtt_micros: Option<u64>,
    rcv_buf_reported: i32,
    snd_buf_reported: Option<i32>,
    reports_doubled: bool,
) -> (r: ProbeResult)
    ensures
        r.rtt_micros == spec_chosen_rtt_micros(connect_micros, reported_rtt_micros),
        r.window_bytes == spec_effective_window(
            spec_usable_buffer_bytes(rcv_buf_reported, reports_doubled),
            match snd_buf_reported {
                Some(s) => Some(spec_usable_buffer_bytes(s, reports_doubled)),
                None => None::<u32>,
            },
        ),
{
    let rcv = usable_buffer_bytes(rcv_buf_reported, reports_doubled);
    let snd = match snd_buf_reported {
        Some(s) => Some(usable_buffer_bytes(s, reports_doubled)),
        None => None,
    };
    ProbeResult {
        rtt_micros: chosen_rtt_micros(connect_micros, reported_rtt_micros),
        window_bytes: effective_window(rcv, snd),
    }
}

/// Why a single probe failed. Every variant is recoverable: the pair
/// it concerns is marked as failed for the cycle and the loop goes
/// on.
#[derive(Clone, Copy, PartialEq, Eq, Structural, Debug)]
pub enum ProbeError {
    /// The server target did not resolve to any address.
    Resolution,
    /// The connection attempt exceeded its bounded timeout.
    Timeout,
    /// The connection attempt failed (refusal, unreachable network).
    ConnectFailed,
    /// A socket-option query failed; carries the OS error code.
    OsQuery(i32),
}

impl ProbeError {
    /// The fixed text each failure kind is reported with.
    pub open spec fn spec_describe(self) -> Seq<char> {
        match self {
            ProbeError::Resolution => "could not resolve address"@,
            ProbeError::Timeout => "connection timed out"@,
            ProbeError::ConnectFailed => "connection failed"@,
            ProbeError::OsQuery(_) => "socket option query failed"@,
        }
    }

    /// Renders the failure kind as text (see [`Self::spec_describe`]).
    pub fn describe(&self) -> (s: String)
        ensures
            s@ == self.spec_describe(),
    {
        match self {
            ProbeError::Resolution => String::from_str("could not resolve address"),
            ProbeError::Timeout => String::from_str("connection timed out"),
            ProbeError::ConnectFailed => String::from_str("connection failed"),
            ProbeError::OsQuery(_) => String::from_str("socket option query failed"),
        }
    }
}

/// The target text handed to address resolution: the operator's
/// server target as given when it already names a port (contains a
/// colon), else with `:443` appended.
pub fn server_target_with_port(target: &str) -> (t: String)
    ensures
        t@ == (if target@.contains(':') {
            target@
        } else {
            target@ + ":443"@
        }),
{
    let n: usize = target.unicode_len();
    let mut i: usize = 0;
    let mut has_colon: bool = false;
    while i < n
        invariant
            n == target@.len(),
            i <= n,
            has_colon == exists|j: int| 0 <= j < i && target@[j] == ':',
        decreases n - i,
    {
        if target.get_char(i) == ':' {
            has_colon = true;
        }
        i = i + 1;
    }
    if has_colon {
        assert(target@.contains(':'));
        target.to_owned()
    } else {
        assert(!target@.contains(':'));
        String::from_str(target).concat(":443")
    }
}

} // verus!
