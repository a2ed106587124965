//! Rendering: the scrapeable text exposition of the registry's
//! gauges, with every value rewritten by the correction factor of
//! its interface at render time.
//!
//! The output is pinned down character by character. A rendered
//! value is the raw stored sample times the factor — carried out
//! exactly in millionths, never rounded — and rendering reads the
//! registry and the correction snapshot immutably: no raw sample is
//! ever stored pre-multiplied.

use crate::correction::CorrectionStore;
use crate::correction::set_applied;
use crate::metrics::MetricsRegistry;
use crate::metrics::sample_views;
use crate::table;
use crate::text::millionths_to_decimal;
use crate::text::spec_millionths_decimal;
use vstd::prelude::*;

verus! {

/// The corrected figure for a raw sample of `raw` bits per second
/// under a factor of `factor` millionths: exactly `raw * factor`
/// millionths of a bit per second.
pub open spec fn corrected_millionths(raw: u64, factor: u64) -> nat {
    (raw as nat) * (factor as nat)
}

/// A correction write takes effect at render time, exactly: once a
/// factor of `value` millionths is set for an interface, the figure
/// rendered for any raw sample `raw` of that interface is
/// `raw * value` — while the write touched no registry and so no
/// stored raw sample (it takes no registry at all).
pub proof fn lemma_correction_applies_at_render(
    before: CorrectionStore,
    after: CorrectionStore,
    key: Seq<char>,
    value: u64,
    raw: u64,
)
    requires
        set_applied(before, after, key, value),
    ensures
        corrected_millionths(raw, after.spec_factor_for(key)) == (raw as nat) * (value as nat),
{
}

/// One exposition line for a raw bandwidth sample `(interface,
/// server address, raw rate)` under the factors of `store`.
pub open spec fn bandwidth_line(s: (Seq<char>, Seq<char>, u64), store: CorrectionStore) -> Seq<
    char,
> {
    "tcp_traffic_scan_tcp_bandwidth_bps{interface=\""@ + s.0 + "\",server_ip=\""@ + s.1 + "\"} "@
        + spec_millionths_decimal(corrected_millionths(s.2, store.spec_factor_for(s.0))) + "\n"@
}

/// The bandwidth lines for all samples, in registry order.
pub open spec fn bandwidth_lines(
    samples: Seq<(Seq<char>, Seq<char>, u64)>,
    store: CorrectionStore,
) -> Seq<char>
    decreases samples.len(),
{
    if samples.len() == 0 {
        Seq::empty()
    } else {
        bandwidth_lines(samples.drop_last(), store) + bandwidth_line(samples.last(), store)
    }
}

/// One exposition line for an interface's cycle average.
pub open spec fn average_line(a: (Seq<char>, u64), store: CorrectionStore) -> Seq<char> {
    "tcp_traffic_scan_tcp_bandwidth_avg_bps{interface=\""@ + a.0 + "\"} "@
        + spec_millionths_decimal(corrected_millionths(a.1, store.spec_factor_for(a.0))) + "\n"@
}

/// The average lines for all interfaces, in table order.
pub open spec fn average_lines(avgs: Seq<(Seq<char>, u64)>, store: CorrectionStore) -> Seq<char>
    decreases avgs.len(),
{
    if avgs.len() == 0 {
        Seq::empty()
    } else {
        average_lines(avgs.drop_last(), store) + average_line(avgs.last(), store)
    }
}

/// The whole exposition: each gauge family's comment header and its
/// lines, families with no series omitted.
pub open spec fn spec_render(
    samples: Seq<(Seq<char>, Seq<char>, u64)>,
    avgs: Seq<(Seq<char>, u64)>,
    store: CorrectionStore,
) -> Seq<char> {
    (if samples.len() == 0 {
        Seq::<char>::empty()
    } else {
        "# HELP tcp_traffic_scan_tcp_bandwidth_bps TCP bandwidth estimation in bps\n"@
            + "# TYPE tcp_traffic_scan_tcp_bandwidth_bps gauge\n"@ + bandwidth_lines(
            samples,
            store,
        )
    }) + (if avgs.len() == 0 {
        Seq::<char>::empty()
    } else {
        "# HELP tcp_traffic_scan_tcp_bandwidth_avg_bps TCP bandwidth average per interface in bps\n"@
            + "# TYPE tcp_traffic_scan_tcp_bandwidth_avg_bps gauge\n"@ + average_lines(avgs, store)
    })
}

/// Renders the registry under one correction snapshot (see
/// [`spec_render`]). Reads both immutably: no stored raw value
/// changes.
pub fn render(registry: &MetricsRegistry, correction: &CorrectionStore) -> (out: String)
    requires
        registry.wf(),
        correction.wf(),
    ensures
        out@ == spec_render(
            sample_views(registry.samples@),
            table::entry_views(registry.averages.entries@),
            *correction,
        ),
{
    let svs = Ghost(sample_views(registry.samples@));
    let avs = Ghost(table::entry_views(registry.averages.entries@));
    let mut out = String::new();
    let ns: usize = registry.samples.len();
    if ns > 0 {
        out.append("# HELP tcp_traffic_scan_tcp_bandwidth_bps TCP bandwidth estimation in bps\n");
        out.append("# TYPE tcp_traffic_scan_tcp_bandwidth_bps gauge\n");
        let ghost header = out@;
        let mut i: usize = 0;
        while i < ns
            invariant
                registry.wf(),
                correction.wf(),
                ns == registry.samples@.len(),
                i <= ns,
                svs@ == sample_views(registry.samples@),
                out@ == header + bandwidth_lines(svs@.subrange(0, i as int), *correction),
            decreases ns - i,
        {
            let s = &registry.samples[i];
            let factor: u64 = correction.get(s.interface.as_str());
            proof {
                assert((s.bps as nat) * (factor as nat) <= (u64::MAX as nat) * (
                u64::MAX as nat)) by (nonlinear_arith)
                    requires
                        s.bps <= u64::MAX,
                        factor <= u64::MAX,
                ;
                assert((u64::MAX as nat) * (u64::MAX as nat) < u128::MAX) by (nonlinear_arith);
            }
            let corrected: u128 = (s.bps as u128) * (factor as u128);
            let value_text = millionths_to_decimal(corrected);
            out.append("tcp_traffic_scan_tcp_bandwidth_bps{interface=\"");
            out.append(s.interface.as_str());
            out.append("\",server_ip=\"");
            out.append(s.server_ip.as_str());
            out.append("\"} ");
            out.append(value_text.as_str());
            out.append("\n");
            proof {
                assert(svs@[i as int] == (s.interface@, s.server_ip@, s.bps));
                assert(svs@.subrange(0, i as int + 1).drop_last() =~= svs@.subrange(0, i as int));
                assert(svs@.subrange(0, i as int + 1).last() == svs@[i as int]);
                assert(out@ == header + bandwidth_lines(
                    svs@.subrange(0, i as int + 1),
                    *correction,
                ));
            }
            i = i + 1;
        }
        proof {
            assert(svs@.subrange(0, ns as int) =~= svs@);
        }
    }
    let ghost first_part = out@;
    let na: usize = registry.averages.entries.len();
    if na > 0 {
        out.append(
            "# HELP tcp_traffic_scan_tcp_bandwidth_avg_bps TCP bandwidth average per interface in bps\n",
        );
        out.append("# TYPE tcp_traffic_scan_tcp_bandwidth_avg_bps gauge\n");
        let ghost header = out@;
        let mut i: usize = 0;
        while i < na
            invariant
                registry.wf(),
                correction.wf(),
                na == registry.averages.entries@.len(),
                i <= na,
                avs@ == table::entry_views(registry.averages.entries@),
                out@ == header + average_lines(avs@.subrange(0, i as int), *correction),
            decreases na - i,
        {
            let a = &registry.averages.entries[i];
            let factor: u64 = correction.get(a.0.as_str());
            proof {
                assert((a.1 as nat) * (factor as nat) <= (u64::MAX as nat) * (
                u64::MAX as nat)) by (nonlinear_arith)
                    requires
                        a.1 <= u64::MAX,
                        factor <= u64::MAX,
                ;
                assert((u64::MAX as nat) * (u64::MAX as nat) < u128::MAX) by (nonlinear_arith);
            }
            let corrected: u128 = (a.1 as u128) * (factor as u128);
            let value_text = millionths_to_decimal(corrected);
            out.append("tcp_traffic_scan_tcp_bandwidth_avg_bps{interface=\"");
            out.append(a.0.as_str());
            out.append("\"} ");
            out.append(value_text.as_str());
            out.append("\n");
            proof {
                assert(avs@[i as int] == (a.0@, a.1));
                assert(avs@.subrange(0, i as int + 1).drop_last() =~= avs@.subrange(0, i as int));
                assert(avs@.subrange(0, i as int + 1).last() == avs@[i as int]);
                assert(out@ == header + average_lines(
                    avs@.subrange(0, i as int + 1),
                    *correction,
                ));
            }
            i = i + 1;
        }
        proof {
            assert(avs@.subrange(0, na as int) =~= avs@);
        }
    }
    proof {
        if registry.averages.entries@.len() == 0 {
            assert(out@ == first_part);
        }
        assert(out@ == spec_render(svs@, avs@, *correction));
    }
    out
}

} // verus!
