//! The metrics registry: raw throughput samples keyed by
//! (interface, server address), and a per-interface average for the
//! current cycle.
//!
//! The registry stores raw values only. Correction factors are
//! applied at render time and never change what is stored here: a
//! sample is superseded by the next successful probe of the same
//! pair and by nothing else.

use crate::table;
use crate::table::Table;
use vstd::prelude::*;

verus! {

/// One raw throughput sample: the estimate for probes from
/// `interface` to `server_ip`, in bits per second.
pub struct Sample {
    pub interface: String,
    pub server_ip: String,
    pub bps: u64,
}

/// Whether some sample carries the pair (`iface`, `ip`).
pub open spec fn sample_has_key(samples: Seq<Sample>, iface: Seq<char>, ip: Seq<char>) -> bool {
    exists|i: int|
        0 <= i < samples.len() && #[trigger] samples[i].interface@ == iface
            && samples[i].server_ip@ == ip
}

/// The index of the sample carrying the pair (meaningful when the
/// pairs are unique and the pair is present).
pub open spec fn sample_key_index(samples: Seq<Sample>, iface: Seq<char>, ip: Seq<char>) -> int {
    choose|i: int|
        0 <= i < samples.len() && #[trigger] samples[i].interface@ == iface
            && samples[i].server_ip@ == ip
}

/// The stored raw value for the pair, if any sample carries it.
pub open spec fn sample_lookup(samples: Seq<Sample>, iface: Seq<char>, ip: Seq<char>) -> Option<
    u64,
> {
    if sample_has_key(samples, iface, ip) {
        Some(samples[sample_key_index(samples, iface, ip)].bps)
    } else {
        None
    }
}

/// No two samples carry the same (interface, server address) pair.
pub open spec fn unique_sample_keys(samples: Seq<Sample>) -> bool {
    forall|i: int, j: int|
        0 <= i < j < samples.len() ==> !(#[trigger] samples[i].interface@ == #[trigger] samples[j].interface@
            && samples[i].server_ip@ == samples[j].server_ip@)
}

/// The samples as plain values: (interface, server address, raw
/// bits per second), in registry order.
pub open spec fn sample_views(samples: Seq<Sample>) -> Seq<(Seq<char>, Seq<char>, u64)> {
    samples.map_values(|s: Sample| (s.interface@, s.server_ip@, s.bps))
}

/// Raw gauge samples and per-interface cycle averages.
pub struct MetricsRegistry {
    pub samples: Vec<Sample>,
    pub averages: Table,
}

impl MetricsRegistry {
    /// Validity: no (interface, server) pair and no interface
    /// occurs twice.
    pub open spec fn wf(self) -> bool {
        &&& unique_sample_keys(self.samples@)
        &&& self.averages.wf()
    }

    /// An empty registry.
    pub fn new() -> (r: Self)
        ensures
            r.wf(),
            r.samples@ =~= Seq::<Sample>::empty(),
            r.averages.entries@ =~= Seq::<(String, u64)>::empty(),
    {
        MetricsRegistry { samples: Vec::new(), averages: Table::new() }
    }

    /// Records the raw sample for (`interface`, `server_ip`),
    /// overwriting the pair's previous sample if it had one and
    /// touching no other pair and no average.
    pub fn record(&mut self, interface: &str, server_ip: &str, bps: u64)
        requires
            old(self).wf(),
        ensures
            final(self).wf(),
            final(self).averages == old(self).averages,
            sample_lookup(final(self).samples@, interface@, server_ip@) == Some(bps),
            forall|f: Seq<char>, p: Seq<char>|
                !(f == interface@ && p == server_ip@) ==> sample_lookup(final(self).samples@, f, p)
                    == sample_lookup(old(self).samples@, f, p),
            sample_views(final(self).samples@) == (if sample_has_key(
                old(self).samples@,
                interface@,
                server_ip@,
            ) {
                sample_views(old(self).samples@).update(
                    sample_key_index(old(self).samples@, interface@, server_ip@),
                    (interface@, server_ip@, bps),
                )
            } else {
                sample_views(old(self).samples@).push((interface@, server_ip@, bps))
            }),
    {
        let iface_owned: String = interface.to_owned();
        let ip_owned: String = server_ip.to_owned();
        let n: usize = self.samples.len();
        let mut i: usize = 0;
        while i < n
            invariant
                self.wf(),
                *self == *old(self),
                n == self.samples@.len(),
                i <= n,
                iface_owned@ == interface@,
                ip_owned@ == server_ip@,
                forall|j: int|
                    0 <= j < i ==> !(#[trigger] self.samples@[j].interface@ == interface@
                        && self.samples@[j].server_ip@ == server_ip@),
            decreases n - i,
        {
            if self.samples[i].interface == iface_owned && self.samples[i].server_ip == ip_owned {
                proof {
                    assert(sample_has_key(self.samples@, interface@, server_ip@));
                    assert(sample_key_index(self.samples@, interface@, server_ip@) == i);
                }
                self.samples[i] = Sample { interface: iface_owned, server_ip: ip_owned, bps };
                proof {
                    lemma_sample_update_effect(
                        old(self).samples@,
                        self.samples@,
                        i as int,
                        interface@,
                        server_ip@,
                        bps,
                    );
                    assert(sample_views(self.samples@) =~= sample_views(
                        old(self).samples@,
                    ).update(i as int, (interface@, server_ip@, bps)));
                }
                return ;
            }
            i = i + 1;
        }
        self.samples.push(Sample { interface: iface_owned, server_ip: ip_owned, bps });
        proof {
            lemma_sample_push_effect(
                old(self).samples@,
                self.samples@,
                interface@,
                server_ip@,
                bps,
            );
            assert(sample_views(self.samples@) =~= sample_views(old(self).samples@).push(
                (interface@, server_ip@, bps),
            ));
        }
    }

    /// Records the cycle average for `interface`, overwriting the
    /// interface's previous average if it had one and touching no
    /// other interface and no raw sample.
    pub fn record_average(&mut self, interface: &str, bps: u64)
        requires
            old(self).wf(),
        ensures
            final(self).wf(),
            final(self).samples == old(self).samples,
            final(self).averages.spec_get(interface@) == Some(bps),
            forall|k: Seq<char>|
                k != interface@ ==> final(self).averages.spec_get(k) == old(
                    self,
                ).averages.spec_get(k),
            table::entry_views(final(self).averages.entries@) == (if table::has_key(
                old(self).averages.entries@,
                interface@,
            ) {
                table::entry_views(old(self).averages.entries@).update(
                    table::key_index(old(self).averages.entries@, interface@),
                    (interface@, bps),
                )
            } else {
                table::entry_views(old(self).averages.entries@).push((interface@, bps))
            }),
    {
        self.averages.put(interface, bps);
    }
}

/// Replacing the sample at the index that carries the pair (all
/// other samples untouched, pairs unique) yields a registry whose
/// lookup gives `bps` for the pair and is unchanged for every other
/// pair.
proof fn lemma_sample_update_effect(
    olds: Seq<Sample>,
    news: Seq<Sample>,
    i: int,
    iface: Seq<char>,
    ip: Seq<char>,
    bps: u64,
)
    requires
        unique_sample_keys(olds),
        0 <= i < olds.len(),
        olds[i].interface@ == iface,
        olds[i].server_ip@ == ip,
        news.len() == olds.len(),
        news[i].interface@ == iface,
        news[i].server_ip@ == ip,
        news[i].bps == bps,
        forall|j: int| 0 <= j < olds.len() && j != i ==> news[j] == olds[j],
    ensures
        unique_sample_keys(news),
        sample_lookup(news, iface, ip) == Some(bps),
        forall|f: Seq<char>, p: Seq<char>|
            !(f == iface && p == ip) ==> sample_lookup(news, f, p) == sample_lookup(olds, f, p),
{
    assert forall|p: int, q: int| 0 <= p < q < news.len() implies !(news[p].interface@
        == news[q].interface@ && news[p].server_ip@ == news[q].server_ip@) by {
        assert(!(olds[p].interface@ == olds[q].interface@ && olds[p].server_ip@
            == olds[q].server_ip@));
    }
    assert(sample_has_key(news, iface, ip));
    assert(sample_key_index(news, iface, ip) == i);
    assert forall|f: Seq<char>, p: Seq<char>| !(f == iface && p == ip) implies sample_lookup(
        news,
        f,
        p,
    ) == sample_lookup(olds, f, p) by {
        if sample_has_key(olds, f, p) {
            let j = sample_key_index(olds, f, p);
            assert(olds[j].interface@ == f && olds[j].server_ip@ == p);
            assert(j != i);
            assert(news[j].interface@ == f && news[j].server_ip@ == p);
            assert(sample_has_key(news, f, p));
            assert(sample_key_index(news, f, p) == j);
        } else {
            assert forall|j: int| 0 <= j < news.len() implies !(#[trigger] news[j].interface@ == f
                && news[j].server_ip@ == p) by {
                if j != i {
                    assert(news[j] == olds[j]);
                }
            }
            assert(!sample_has_key(news, f, p));
        }
    }
}

/// Appending a sample for a pair that no sample carries yields a
/// registry whose lookup gives `bps` for the pair and is unchanged
/// for every other pair.
proof fn lemma_sample_push_effect(
    olds: Seq<Sample>,
    news: Seq<Sample>,
    iface: Seq<char>,
    ip: Seq<char>,
    bps: u64,
)
    requires
        unique_sample_keys(olds),
        !sample_has_key(olds, iface, ip),
        news.len() == olds.len() + 1,
        forall|j: int| 0 <= j < olds.len() ==> news[j] == olds[j],
        news.last().interface@ == iface,
        news.last().server_ip@ == ip,
        news.last().bps == bps,
    ensures
        unique_sample_keys(news),
        sample_lookup(news, iface, ip) == Some(bps),
        forall|f: Seq<char>, p: Seq<char>|
            !(f == iface && p == ip) ==> sample_lookup(news, f, p) == sample_lookup(olds, f, p),
{
    assert forall|p: int, q: int| 0 <= p < q < news.len() implies !(news[p].interface@
        == news[q].interface@ && news[p].server_ip@ == news[q].server_ip@) by {
        if q == news.len() - 1 {
            assert(news[p] == olds[p]);
            assert(news[q].interface@ == iface && news[q].server_ip@ == ip);
        } else {
            assert(!(olds[p].interface@ == olds[q].interface@ && olds[p].server_ip@
                == olds[q].server_ip@));
        }
    }
    assert(news[news.len() - 1].interface@ == iface && news[news.len() - 1].server_ip@ == ip);
    assert(sample_has_key(news, iface, ip));
    assert(sample_key_index(news, iface, ip) == news.len() - 1);
    assert forall|f: Seq<char>, p: Seq<char>| !(f == iface && p == ip) implies sample_lookup(
        news,
        f,
        p,
    ) == sample_lookup(olds, f, p) by {
        if sample_has_key(olds, f, p) {
            let j = sample_key_index(olds, f, p);
            assert(olds[j].interface@ == f && olds[j].server_ip@ == p);
            assert(news[j].interface@ == f && news[j].server_ip@ == p);
            assert(sample_has_key(news, f, p));
            assert(sample_key_index(news, f, p) == j);
        } else {
            assert forall|j: int| 0 <= j < news.len() implies !(#[trigger] news[j].interface@ == f
                && news[j].server_ip@ == p) by {
                if j < news.len() - 1 {
                    assert(news[j] == olds[j]);
                }
            }
            assert(!sample_has_key(news, f, p));
        }
    }
}

/// The sum of a sequence of rates.
pub open spec fn seq_sum(s: Seq<u64>) -> nat
    decreases s.len(),
{
    if s.len() == 0 {
        0
    } else {
        seq_sum(s.drop_last()) + (s.last() as nat)
    }
}

/// A sum of `len` rates is at most `len` times the largest rate a
/// `u64` can hold.
pub proof fn lemma_seq_sum_bound(s: Seq<u64>)
    ensures
        seq_sum(s) <= s.len() * (u64::MAX as nat),
    decreases s.len(),
{
    if s.len() > 0 {
        lemma_seq_sum_bound(s.drop_last());
        assert(s.len() * (u64::MAX as nat) == (s.len() - 1) * (u64::MAX as nat) + (
        u64::MAX as nat)) by (nonlinear_arith);
    }
}

/// Running statistics for one measurement cycle over one interface:
/// the successful probes' rates, summed and counted. The rates
/// themselves are carried as ghost history, so the average below is
/// provably the arithmetic mean of exactly the rates pushed.
pub struct CycleStats {
    pub sum: u128,
    pub count: u32,
    pub rates: Ghost<Seq<u64>>,
}

impl CycleStats {
    /// Validity: the count and sum are those of the pushed rates.
    pub open spec fn wf(self) -> bool {
        &&& self.count == self.rates@.len()
        &&& self.sum == seq_sum(self.rates@)
    }

    /// The arithmetic mean of the pushed rates, rounded down; no
    /// value at all when nothing was pushed.
    pub open spec fn spec_average(self) -> Option<u64> {
        if self.rates@.len() == 0 {
            None
        } else {
            Some((seq_sum(self.rates@) / self.rates@.len()) as u64)
        }
    }

    /// Fresh statistics: nothing measured yet.
    pub fn new() -> (s: Self)
        ensures
            s.wf(),
            s.rates@ =~= Seq::<u64>::empty(),
    {
        CycleStats { sum: 0, count: 0, rates: Ghost(Seq::empty()) }
    }

    /// Accounts one successful probe's rate.
    pub fn push_success(&mut self, bps: u64)
        requires
            old(self).wf(),
            old(self).count < u32::MAX,
        ensures
            final(self).wf(),
            final(self).rates@ == old(self).rates@.push(bps),
    {
        proof {
            lemma_seq_sum_bound(self.rates@);
            assert((u32::MAX as nat) * (u64::MAX as nat) < u128::MAX) by (nonlinear_arith);
            assert(self.rates@.len() * (u64::MAX as nat) <= (u32::MAX as nat) * (
            u64::MAX as nat)) by (nonlinear_arith)
                requires
                    self.rates@.len() < u32::MAX as nat,
            ;
        }
        self.sum = self.sum + (bps as u128);
        self.count = self.count + 1;
        proof {
            let pushed = self.rates@.push(bps);
            assert(pushed.drop_last() =~= old(self).rates@);
            assert(pushed.last() == bps);
        }
        self.rates = Ghost(self.rates@.push(bps));
        proof {
            assert(self.rates@.drop_last() =~= old(self).rates@);
        }
    }

    /// The cycle's average: the arithmetic mean, rounded down, of
    /// exactly the successful rates pushed — and no value at all
    /// for a cycle with zero successes.
    pub fn average(&self) -> (avg: Option<u64>)
        requires
            self.wf(),
        ensures
            avg == self.spec_average(),
            self.rates@.len() == 0 <==> avg is None,
    {
        if self.count == 0 {
            None
        } else {
            proof {
                lemma_seq_sum_bound(self.rates@);
                lemma_mean_fits_u64(seq_sum(self.rates@), self.rates@.len());
            }
            Some((self.sum / (self.count as u128)) as u64)
        }
    }
}

/// A mean of values that each fit in a `u64` fits in a `u64`.
proof fn lemma_mean_fits_u64(total: nat, n: nat)
    requires
        n > 0,
        total <= n * (u64::MAX as nat),
    ensures
        total / n <= u64::MAX as nat,
{
    assert(total / n <= u64::MAX as nat) by (nonlinear_arith)
        requires
            n > 0,
            total <= n * (u64::MAX as nat),
    ;
}

} // verus!
