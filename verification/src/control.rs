//! The correction surface's decision logic: one stateless request in,
//! one reply and one well-defined store change out.
//!
//! The transport (listening, routing, query decoding) stays outside;
//! this module is handed the two optional query parameters as text
//! and decides everything else: validation, identifier resolution,
//! the store mutation, the status code and the reply body. A request
//! that is rejected — non-positive value, unresolved identifier —
//! changes nothing.

use crate::aliases;
use crate::aliases::AliasTable;
use crate::correction::CorrectionStore;
use crate::parse;
use crate::parse::ParsedCorrection;
use crate::text::millionths_to_decimal;
use crate::text::spec_millionths_decimal;
use vstd::prelude::*;
use vstd::string::StringSliceAdditionalSpecFns;

verus! {

/// A reply of the correction surface: a status code and a text body.
pub struct CorrectionReply {
    pub status: u16,
    pub body: String,
}

/// One line of the per-interface listing in the read reply.
pub open spec fn override_line(e: (Seq<char>, u64)) -> Seq<char> {
    "  "@ + e.0 + ": "@ + spec_millionths_decimal(e.1 as nat) + "\n"@
}

/// The per-interface listing, in store order.
pub open spec fn override_lines(entries: Seq<(Seq<char>, u64)>) -> Seq<char>
    decreases entries.len(),
{
    if entries.len() == 0 {
        Seq::empty()
    } else {
        override_lines(entries.drop_last()) + override_line(entries.last())
    }
}

/// The read reply's body: the default factor, then — only when any
/// exist — the per-interface overrides.
pub open spec fn spec_show_body(store: CorrectionStore) -> Seq<char> {
    "Default correction factor: "@ + spec_millionths_decimal(store.spec_default() as nat) + "\n"@
        + (if store.entries().len() == 0 {
        Seq::<char>::empty()
    } else {
        "\nPer-interface correction factors:\n"@ + override_lines(store.entry_views())
    })
}

/// The state the correction surface works over: the configured
/// interfaces (fixed at startup), the alias directory's table, and
/// the correction store.
pub struct ControlState {
    pub interfaces: Vec<String>,
    pub aliases: AliasTable,
    pub store: CorrectionStore,
}

impl ControlState {
    /// Validity of the parts.
    pub open spec fn wf(self) -> bool {
        &&& self.aliases.wf()
        &&& self.store.wf()
    }

    /// A fresh state over the given interfaces: no aliases known
    /// yet, every factor `1.0`.
    pub fn new(interfaces: Vec<String>) -> (s: Self)
        ensures
            s.wf(),
            s.interfaces == interfaces,
            s.aliases.entries@ =~= Seq::<(String, String)>::empty(),
            s.store.spec_default() == crate::correction::UNIT_MILLIONTHS,
            s.store.entries() =~= Seq::<(String, u64)>::empty(),
    {
        ControlState { interfaces, aliases: AliasTable::new(), store: CorrectionStore::new() }
    }

    /// Whether handling a write for `nic` would fail to resolve it
    /// with the aliases known now — the cue to refresh the alias
    /// table first.
    pub fn needs_alias_refresh(&self, nic: &str) -> (r: bool)
        requires
            self.wf(),
        ensures
            r == (aliases::spec_resolve(self.interfaces@, self.aliases.entries@, nic@) is None),
    {
        let resolved = aliases::resolve_identifier(&self.interfaces, &self.aliases, nic);
        match resolved {
            Some(_) => false,
            None => true,
        }
    }

    /// Replaces the alias table with a fresh listing (a failed fetch
    /// is no listing, and the old table stays). Touches nothing
    /// else.
    pub fn replace_aliases(&mut self, listing: Vec<(String, String)>)
        requires
            old(self).wf(),
        ensures
            final(self).wf(),
            final(self).interfaces == old(self).interfaces,
            final(self).store == old(self).store,
            forall|k: Seq<char>|
                #[trigger] final(self).aliases.spec_get(k) == aliases::first_alias_for(
                    listing@,
                    k,
                ),
    {
        self.aliases.replace_all(listing);
    }

    /// The read reply's body (see [`spec_show_body`]).
    pub fn show_corrections(&self) -> (out: String)
        requires
            self.wf(),
        ensures
            out@ == spec_show_body(self.store),
    {
        let evs = Ghost(self.store.entry_views());
        let mut out = String::from_str("Default correction factor: ");
        let d = millionths_to_decimal(self.store.default_millionths as u128);
        out.append(d.as_str());
        out.append("\n");
        let n: usize = self.store.overrides.entries.len();
        if n > 0 {
            out.append("\nPer-interface correction factors:\n");
            let ghost header = out@;
            let mut i: usize = 0;
            while i < n
                invariant
                    self.wf(),
                    n == self.store.overrides.entries@.len(),
                    i <= n,
                    evs@ == self.store.entry_views(),
                    out@ == header + override_lines(evs@.subrange(0, i as int)),
                decreases n - i,
            {
                let e = &self.store.overrides.entries[i];
                out.append("  ");
                out.append(e.0.as_str());
                out.append(": ");
                let v = millionths_to_decimal(e.1 as u128);
                out.append(v.as_str());
                out.append("\n");
                proof {
                    assert(evs@[i as int] == (e.0@, e.1));
                    assert(evs@.subrange(0, i as int + 1).drop_last() =~= evs@.subrange(
                        0,
                        i as int,
                    ));
                    assert(evs@.subrange(0, i as int + 1).last() == evs@[i as int]);
                    assert(out@ == header + override_lines(evs@.subrange(0, i as int + 1)));
                }
                i = i + 1;
            }
            proof {
                assert(evs@.subrange(0, n as int) =~= evs@);
            }
        }
        out
    }

    /// Handles one request to the correction surface.
    ///
    /// No value reads the current state (200). A value that is not a
    /// positive number is rejected with 400 and no change. A
    /// positive value with no identifier sets the global default;
    /// with an identifier it sets that interface's override once the
    /// identifier resolves, and is rejected with 404 and no change
    /// when it does not.
    pub fn handle_correction(&mut self, value: Option<&str>, nic: Option<&str>) -> (r:
        CorrectionReply)
        requires
            old(self).wf(),
        ensures
            final(self).wf(),
            final(self).interfaces == old(self).interfaces,
            final(self).aliases == old(self).aliases,
            match value {
                None => {
                    &&& r.status == 200
                    &&& r.body@ == spec_show_body(old(self).store)
                    &&& *final(self) == *old(self)
                },
                Some(v) => match parse::spec_parse_correction(v.spec_bytes()) {
                    ParsedCorrection::Malformed => {
                        &&& r.status == 400
                        &&& r.body@ == "Value must be greater than 0\n"@
                        &&& *final(self) == *old(self)
                    },
                    ParsedCorrection::NonPositive => {
                        &&& r.status == 400
                        &&& r.body@ == "Value must be greater than 0\n"@
                        &&& *final(self) == *old(self)
                    },
                    ParsedCorrection::Value(m) => match nic {
                        None => {
                            &&& r.status == 200
                            &&& r.body@ == "Default correction factor set to: "@
                                + spec_millionths_decimal(m as nat) + "\n"@
                            &&& final(self).store.spec_default() == m
                            &&& final(self).store.entries() == old(self).store.entries()
                        },
                        Some(nm) => match aliases::spec_resolve(
                            old(self).interfaces@,
                            old(self).aliases.entries@,
                            nm@,
                        ) {
                            None => {
                                &&& r.status == 404
                                &&& r.body@ == "Unknown interface or alias: "@ + nm@ + "\n"@
                                &&& *final(self) == *old(self)
                            },
                            Some(iface) => {
                                &&& r.status == 200
                                &&& r.body@ == "Correction factor for "@ + nm@ + " ("@ + iface
                                    + ") set to: "@ + spec_millionths_decimal(m as nat) + "\n"@
                                &&& final(self).store.spec_default() == old(
                                    self,
                                ).store.spec_default()
                                &&& final(self).store.spec_factor_for(iface) == m
                                &&& forall|k: Seq<char>|
                                    k != iface ==> final(self).store.spec_factor_for(k) == old(
                                        self,
                                    ).store.spec_factor_for(k)
                            },
                        },
                    },
                },
            },
    {
        match value {
            None => {
                let body = self.show_corrections();
                CorrectionReply { status: 200, body }
            },
            Some(v) => match parse::parse_correction_value(v) {
                ParsedCorrection::Malformed => CorrectionReply {
                    status: 400,
                    body: String::from_str("Value must be greater than 0\n"),
                },
                ParsedCorrection::NonPositive => CorrectionReply {
                    status: 400,
                    body: String::from_str("Value must be greater than 0\n"),
                },
                ParsedCorrection::Value(m) => match nic {
                    None => {
                        let _ = self.store.set_default(m);
                        let mut body = String::from_str("Default correction factor set to: ");
                        let d = millionths_to_decimal(m as u128);
                        body.append(d.as_str());
                        body.append("\n");
                        CorrectionReply { status: 200, body }
                    },
                    Some(nm) => {
                        let resolved = aliases::resolve_identifier(
                            &self.interfaces,
                            &self.aliases,
                            nm,
                        );
                        match resolved {
                            None => {
                                let mut body = String::from_str("Unknown interface or alias: ");
                                body.append(nm);
                                body.append("\n");
                                CorrectionReply { status: 404, body }
                            },
                            Some(iface) => {
                                let _ = self.store.set(iface.as_str(), m);
                                let mut body = String::from_str("Correction factor for ");
                                body.append(nm);
                                body.append(" (");
                                body.append(iface.as_str());
                                body.append(") set to: ");
                                let d = millionths_to_decimal(m as u128);
                                body.append(d.as_str());
                                body.append("\n");
                                CorrectionReply { status: 200, body }
                            },
                        }
                    },
                },
            },
        }
    }
}

} // verus!
