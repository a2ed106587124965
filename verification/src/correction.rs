//! The correction store: a mapping from interface name to a strictly
//! positive multiplier, with a global default for interfaces that
//! have no entry of their own.
//!
//! Factors are carried in millionths (fixed point with six decimal
//! places). Writes of non-positive values are rejected at this
//! boundary and never partially applied. The store itself is a plain
//! value; callers that share it across threads serialize every
//! access through one exclusive lock, so the sequential contracts
//! here describe each locked step exactly.

use crate::table;
use crate::table::Table;
use vstd::prelude::*;

verus! {

/// One whole unit of correction — the factor `1.0` — in millionths.
pub const UNIT_MILLIONTHS: u64 = 1_000_000;

/// A rejected correction write: the value was not strictly positive.
#[derive(Clone, Copy, PartialEq, Eq, Structural, Debug)]
pub struct ValidationError;

/// Per-interface correction multipliers over a global default.
///
/// Entries are created lazily: an interface has an override only
/// once one has been written for it; until then it falls back to the
/// default, which starts at `1.0`.
pub struct CorrectionStore {
    pub default_millionths: u64,
    pub overrides: Table,
}

impl CorrectionStore {
    /// Validity: the default and every override are strictly
    /// positive, and no interface has two entries.
    pub open spec fn wf(self) -> bool {
        &&& self.default_millionths > 0
        &&& self.overrides.wf()
        &&& forall|i: int|
            0 <= i < self.overrides.entries@.len() ==> #[trigger] self.overrides.entries@[i].1 > 0
    }

    /// The override entries, in display order.
    pub open spec fn entries(self) -> Seq<(String, u64)> {
        self.overrides.entries@
    }

    /// The override entries as plain values: (interface name, factor
    /// in millionths), in display order.
    pub open spec fn entry_views(self) -> Seq<(Seq<char>, u64)> {
        table::entry_views(self.overrides.entries@)
    }

    /// The global default factor, in millionths.
    pub open spec fn spec_default(self) -> u64 {
        self.default_millionths
    }

    /// The factor that applies to `key`: its override if present,
    /// else the global default.
    pub open spec fn spec_factor_for(self, key: Seq<char>) -> u64 {
        match table::lookup(self.overrides.entries@, key) {
            Some(v) => v,
            None => self.default_millionths,
        }
    }

    /// A fresh store: factor `1.0` for every interface.
    pub fn new() -> (s: Self)
        ensures
            s.wf(),
            s.spec_default() == UNIT_MILLIONTHS,
            s.entries() =~= Seq::<(String, u64)>::empty(),
            forall|k: Seq<char>| s.spec_factor_for(k) == UNIT_MILLIONTHS,
    {
        CorrectionStore { default_millionths: UNIT_MILLIONTHS, overrides: Table::new() }
    }

    /// Reads the factor that applies to `key` (override, else
    /// default). Always strictly positive.
    pub fn get(&self, key: &str) -> (f: u64)
        requires
            self.wf(),
        ensures
            f == self.spec_factor_for(key@),
            f > 0,
    {
        match self.overrides.get(key) {
            Some(v) => {
                proof {
                    let i = table::key_index(self.overrides.entries@, key@);
                    assert(self.overrides.entries@[i].1 > 0);
                }
                v
            },
            None => self.default_millionths,
        }
    }

    /// Writes the override for `key`. A non-positive value is
    /// rejected with no effect; a positive one replaces the existing
    /// entry for `key` or appends a new one, leaving every other key
    /// and the default untouched.
    pub fn set(&mut self, key: &str, value_millionths: u64) -> (r: Result<(), ValidationError>)
        requires
            old(self).wf(),
        ensures
            final(self).wf(),
            value_millionths == 0 ==> r is Err && *final(self) == *old(self),
            value_millionths > 0 ==> {
                &&& r is Ok
                &&& final(self).spec_default() == old(self).spec_default()
                &&& final(self).spec_factor_for(key@) == value_millionths
                &&& forall|k: Seq<char>|
                    k != key@ ==> final(self).spec_factor_for(k) == old(self).spec_factor_for(k)
                &&& final(self).entry_views() == (if table::has_key(old(self).entries(), key@) {
                    old(self).entry_views().update(
                        table::key_index(old(self).entries(), key@),
                        (key@, value_millionths),
                    )
                } else {
                    old(self).entry_views().push((key@, value_millionths))
                })
            },
    {
        if value_millionths == 0 {
            return Err(ValidationError);
        }
        self.overrides.put(key, value_millionths);
        proof {
            if table::has_key(old(self).entries(), key@) {
                let i = table::key_index(old(self).entries(), key@);
                assert forall|j: int|
                    0 <= j < self.overrides.entries@.len() implies #[trigger] self.overrides.entries@[j].1
                    > 0 by {
                    if j != i {
                        assert(self.overrides.entries@[j] == old(self).overrides.entries@[j]);
                    }
                }
            } else {
                assert forall|j: int|
                    0 <= j < self.overrides.entries@.len() implies #[trigger] self.overrides.entries@[j].1
                    > 0 by {
                    if j < old(self).overrides.entries@.len() {
                        assert(self.overrides.entries@[j] == old(self).overrides.entries@[j]);
                    } else {
                        assert(self.overrides.entries@[j] == self.overrides.entries@.last());
                    }
                }
            }
        }
        Ok(())
    }

    /// Writes the global default. A non-positive value is rejected
    /// with no effect; a positive one replaces the default and
    /// leaves every override untouched.
    pub fn set_default(&mut self, value_millionths: u64) -> (r: Result<(), ValidationError>)
        requires
            old(self).wf(),
        ensures
            final(self).wf(),
            value_millionths == 0 ==> r is Err && *final(self) == *old(self),
            value_millionths > 0 ==> {
                &&& r is Ok
                &&& final(self).spec_default() == value_millionths
                &&& final(self).entries() == old(self).entries()
                &&& forall|k: Seq<char>|
                    table::has_key(old(self).entries(), k) ==> final(self).spec_factor_for(k)
                        == old(self).spec_factor_for(k)
                &&& forall|k: Seq<char>|
                    !table::has_key(old(self).entries(), k) ==> final(self).spec_factor_for(k)
                        == value_millionths
            },
    {
        if value_millionths == 0 {
            return Err(ValidationError);
        }
        self.default_millionths = value_millionths;
        Ok(())
    }

    /// A point-in-time copy with the same default and the same
    /// entries: the consistent snapshot a renderer works from.
    pub fn snapshot(&self) -> (s: Self)
        requires
            self.wf(),
        ensures
            s.wf(),
            s.spec_default() == self.spec_default(),
            s.entries() == self.entries(),
            forall|k: Seq<char>| s.spec_factor_for(k) == self.spec_factor_for(k),
    {
        CorrectionStore {
            default_millionths: self.default_millionths,
            overrides: self.overrides.snapshot(),
        }
    }
}

/// One successful locked write of `value` for `key`, as `set`
/// promises it: this predicate is exactly what a call
/// `set(key, value)` with `value > 0` establishes between the store
/// before and the store after.
pub open spec fn set_applied(
    before: CorrectionStore,
    after: CorrectionStore,
    key: Seq<char>,
    value: u64,
) -> bool {
    &&& before.wf()
    &&& after.wf()
    &&& value > 0
    &&& after.spec_default() == before.spec_default()
    &&& after.spec_factor_for(key) == value
    &&& forall|k: Seq<char>| k != key ==> after.spec_factor_for(k) == before.spec_factor_for(k)
}

/// No write is lost: after a chain of successful writes to one key
/// completes, a read of that key returns the value of the last
/// write — which is one of the written values, never a stale or
/// intermediate one. `states[0]` is the store before the first
/// write and `states[i + 1]` the store after the `i`th.
pub proof fn lemma_sequential_writes_never_lost(
    states: Seq<CorrectionStore>,
    key: Seq<char>,
    values: Seq<u64>,
)
    requires
        values.len() >= 1,
        states.len() == values.len() + 1,
        forall|i: int|
            0 <= i < values.len() ==> #[trigger] set_applied(
                states[i],
                states[i + 1],
                key,
                values[i],
            ),
    ensures
        states.last().spec_factor_for(key) == values.last(),
        values.contains(states.last().spec_factor_for(key)),
{
    let i = values.len() - 1;
    assert(set_applied(states[i], states[i + 1], key, values[i]));
    assert(values[i] == values.last());
    assert(states[i + 1] == states.last());
}

} // verus!
