//! Resolving the correction endpoint's interface identifier.
//!
//! An identifier may be a configured interface name, a built-in wan
//! alias, or an entry of the alias directory, whose table is fetched
//! from a collaborator and replaced wholesale on each refresh. An
//! identifier that none of the three resolves stays unresolved and
//! the write it came with is refused.

use vstd::prelude::*;

verus! {

/// The built-in alias of a wan name: `wan0` and `wan1` stand for
/// `eth0` and `eth1`; any other name stands for itself.
pub open spec fn spec_map_wan(name: Seq<char>) -> Seq<char> {
    if name == "wan0"@ {
        "eth0"@
    } else if name == "wan1"@ {
        "eth1"@
    } else {
        name
    }
}

/// Maps a wan name to its interface (see [`spec_map_wan`]).
pub fn map_wan_to_interface(wan_name: &str) -> (r: String)
    ensures
        r@ == spec_map_wan(wan_name@),
{
    let owned: String = wan_name.to_owned();
    if owned == String::from_str("wan0") {
        String::from_str("eth0")
    } else if owned == String::from_str("wan1") {
        String::from_str("eth1")
    } else {
        owned
    }
}

/// Whether some alias entry carries `key`.
pub open spec fn has_alias(entries: Seq<(String, String)>, key: Seq<char>) -> bool {
    exists|i: int| 0 <= i < entries.len() && #[trigger] entries[i].0@ == key
}

/// The index of the alias entry carrying `key` (meaningful when the
/// keys are unique and `key` is present).
pub open spec fn alias_index(entries: Seq<(String, String)>, key: Seq<char>) -> int {
    choose|i: int| 0 <= i < entries.len() && #[trigger] entries[i].0@ == key
}

/// The interface name stored under alias `key`, if any entry
/// carries it.
pub open spec fn alias_lookup(entries: Seq<(String, String)>, key: Seq<char>) -> Option<
    Seq<char>,
> {
    if has_alias(entries, key) {
        Some(entries[alias_index(entries, key)].1@)
    } else {
        None
    }
}

/// No two alias entries carry the same alias.
pub open spec fn unique_alias_keys(entries: Seq<(String, String)>) -> bool {
    forall|i: int, j: int|
        0 <= i < j < entries.len() ==> #[trigger] entries[i].0@ != #[trigger] entries[j].0@
}

/// The first entry for `key` in a raw (possibly repetitive) listing.
pub open spec fn first_alias_for(entries: Seq<(String, String)>, key: Seq<char>) -> Option<
    Seq<char>,
>
    decreases entries.len(),
{
    if entries.len() == 0 {
        None
    } else if entries[0].0@ == key {
        Some(entries[0].1@)
    } else {
        first_alias_for(entries.drop_first(), key)
    }
}

/// The alias directory's table: alias name to interface name,
/// replaced wholesale on each refresh.
pub struct AliasTable {
    pub entries: Vec<(String, String)>,
}

impl AliasTable {
    /// Validity: no alias occurs twice.
    pub open spec fn wf(self) -> bool {
        unique_alias_keys(self.entries@)
    }

    /// The interface name this table gives for `key`, if any.
    pub open spec fn spec_get(self, key: Seq<char>) -> Option<Seq<char>> {
        alias_lookup(self.entries@, key)
    }

    /// An empty table: nothing resolves through it.
    pub fn new() -> (t: Self)
        ensures
            t.wf(),
            t.entries@ =~= Seq::<(String, String)>::empty(),
            forall|k: Seq<char>| t.spec_get(k) is None,
    {
        AliasTable { entries: Vec::new() }
    }

    /// Reads the interface name stored under alias `key`, if any.
    pub fn get(&self, key: &str) -> (r: Option<String>)
        requires
            self.wf(),
        ensures
            match r {
                Some(v) => self.spec_get(key@) == Some(v@),
                None => self.spec_get(key@) is None,
            },
    {
        let key_owned: String = key.to_owned();
        let n: usize = self.entries.len();
        let mut i: usize = 0;
        while i < n
            invariant
                self.wf(),
                n == self.entries@.len(),
                i <= n,
                key_owned@ == key@,
                forall|j: int| 0 <= j < i ==> self.entries@[j].0@ != key@,
            decreases n - i,
        {
            if self.entries[i].0 == key_owned {
                proof {
                    assert(has_alias(self.entries@, key@));
                    assert(alias_index(self.entries@, key@) == i);
                }
                return Some(self.entries[i].1.clone());
            }
            i = i + 1;
        }
        proof {
            assert(!has_alias(self.entries@, key@));
        }
        None
    }

    /// Replaces the whole table with a fresh listing. A repeated
    /// alias in the listing keeps its first entry.
    pub fn replace_all(&mut self, listing: Vec<(String, String)>)
        ensures
            final(self).wf(),
            forall|k: Seq<char>|
                #[trigger] final(self).spec_get(k) == first_alias_for(listing@, k),
    {
        let mut fresh: Vec<(String, String)> = Vec::new();
        let n: usize = listing.len();
        let mut i: usize = 0;
        while i < n
            invariant
                n == listing@.len(),
                i <= n,
                unique_alias_keys(fresh@),
                forall|k: Seq<char>|
                    #[trigger] alias_lookup(fresh@, k) == first_alias_for(
                        listing@.subrange(0, i as int),
                        k,
                    ),
            decreases n - i,
        {
            let key_ref: &String = &listing[i].0;
            let mut seen: bool = false;
            let m: usize = fresh.len();
            let mut j: usize = 0;
            while j < m
                invariant
                    m == fresh@.len(),
                    j <= m,
                    seen == exists|q: int| 0 <= q < j && #[trigger] fresh@[q].0@ == key_ref@,
                decreases m - j,
            {
                if fresh[j].0 == *key_ref {
                    seen = true;
                }
                j = j + 1;
            }
            let ghost pre = fresh@;
            if !seen {
                proof {
                    assert(!has_alias(fresh@, key_ref@));
                }
                fresh.push((listing[i].0.clone(), listing[i].1.clone()));
                proof {
                    lemma_alias_push_effect(
                        pre,
                        fresh@,
                        listing@[i as int].0@,
                        listing@[i as int].1@,
                    );
                }
            } else {
                proof {
                    assert(has_alias(pre, key_ref@));
                }
            }
            proof {
                assert forall|k: Seq<char>| #[trigger] alias_lookup(fresh@, k) == first_alias_for(
                    listing@.subrange(0, i as int + 1),
                    k,
                ) by {
                    lemma_first_alias_take_step(listing@, i as int, k);
                    if k == listing@[i as int].0@ {
                        if has_alias(pre, k) {
                            assert(first_alias_for(listing@.subrange(0, i as int), k) is Some);
                        }
                    }
                }
            }
            i = i + 1;
        }
        proof {
            assert(listing@.subrange(0, n as int) =~= listing@);
        }
        self.entries = fresh;
    }
}

/// Appending an entry for an alias that no entry carries yields a
/// table whose lookup gives the new interface for that alias and is
/// unchanged for every other alias.
proof fn lemma_alias_push_effect(
    olds: Seq<(String, String)>,
    news: Seq<(String, String)>,
    key: Seq<char>,
    value: Seq<char>,
)
    requires
        unique_alias_keys(olds),
        !has_alias(olds, key),
        news.len() == olds.len() + 1,
        forall|j: int| 0 <= j < olds.len() ==> news[j] == olds[j],
        news.last().0@ == key,
        news.last().1@ == value,
    ensures
        unique_alias_keys(news),
        alias_lookup(news, key) == Some(value),
        forall|k: Seq<char>| k != key ==> alias_lookup(news, k) == alias_lookup(olds, k),
{
    assert forall|p: int, q: int| 0 <= p < q < news.len() implies news[p].0@ != news[q].0@ by {
        if q == news.len() - 1 {
            assert(news[p] == olds[p]);
            assert(news[q].0@ == key);
        } else {
            assert(olds[p].0@ != olds[q].0@);
        }
    }
    assert(news[news.len() - 1].0@ == key);
    assert(has_alias(news, key));
    assert(alias_index(news, key) == news.len() - 1);
    assert forall|k: Seq<char>| k != key implies alias_lookup(news, k) == alias_lookup(
        olds,
        k,
    ) by {
        if has_alias(olds, k) {
            let j = alias_index(olds, k);
            assert(olds[j].0@ == k);
            assert(news[j].0@ == k);
            assert(has_alias(news, k));
            assert(alias_index(news, k) == j);
        } else {
            assert forall|j: int| 0 <= j < news.len() implies news[j].0@ != k by {
                if j < news.len() - 1 {
                    assert(news[j] == olds[j]);
                }
            }
            assert(!has_alias(news, k));
        }
    }
}

/// One more listing entry changes the first-entry lookup only for
/// an alias not yet listed.
proof fn lemma_first_alias_take_step(listing: Seq<(String, String)>, i: int, k: Seq<char>)
    requires
        0 <= i < listing.len(),
    ensures
        first_alias_for(listing.subrange(0, i + 1), k) == (if first_alias_for(
            listing.subrange(0, i),
            k,
        ) is Some {
            first_alias_for(listing.subrange(0, i), k)
        } else if listing[i].0@ == k {
            Some(listing[i].1@)
        } else {
            None::<Seq<char>>
        }),
    decreases i,
{
    let shorter = listing.subrange(0, i);
    let longer = listing.subrange(0, i + 1);
    if i == 0 {
        assert(shorter.len() == 0);
        assert(longer.len() == 1);
        assert(longer[0] == listing[0]);
        if listing[0].0@ != k {
            assert(longer.drop_first() =~= Seq::<(String, String)>::empty());
            assert(first_alias_for(Seq::<(String, String)>::empty(), k) is None);
            assert(first_alias_for(longer, k) == first_alias_for(longer.drop_first(), k));
        }
    } else {
        assert(longer[0] == listing[0]);
        assert(shorter[0] == listing[0]);
        if listing[0].0@ == k {
            assert(first_alias_for(longer, k) == Some(listing[0].1@));
            assert(first_alias_for(shorter, k) == Some(listing[0].1@));
        } else {
            lemma_first_alias_take_step(listing.drop_first(), i - 1, k);
            assert(longer.drop_first() =~= listing.drop_first().subrange(0, i));
            assert(shorter.drop_first() =~= listing.drop_first().subrange(0, i - 1));
            assert(listing.drop_first()[i - 1] == listing[i]);
        }
    }
}

/// Whether `name` is one of the configured interfaces.
pub open spec fn is_configured(interfaces: Seq<String>, name: Seq<char>) -> bool {
    exists|i: int| 0 <= i < interfaces.len() && #[trigger] interfaces[i]@ == name
}

/// Checks `name` against the configured interfaces.
pub fn configured_interface(interfaces: &Vec<String>, name: &String) -> (r: bool)
    ensures
        r == is_configured(interfaces@, name@),
{
    let n: usize = interfaces.len();
    let mut i: usize = 0;
    while i < n
        invariant
            n == interfaces@.len(),
            i <= n,
            forall|j: int| 0 <= j < i ==> interfaces@[j]@ != name@,
        decreases n - i,
    {
        if interfaces[i] == *name {
            proof {
                assert(is_configured(interfaces@, name@));
            }
            return true;
        }
        i = i + 1;
    }
    false
}

/// What an identifier resolves to: a configured interface name
/// directly, else its built-in wan alias when that is configured,
/// else the alias directory's entry; else nothing.
pub open spec fn spec_resolve(
    interfaces: Seq<String>,
    aliases: Seq<(String, String)>,
    nic: Seq<char>,
) -> Option<Seq<char>> {
    if is_configured(interfaces, nic) {
        Some(nic)
    } else if is_configured(interfaces, spec_map_wan(nic)) {
        Some(spec_map_wan(nic))
    } else {
        alias_lookup(aliases, nic)
    }
}

/// Resolves an identifier to a concrete interface name (see
/// [`spec_resolve`]).
pub fn resolve_identifier(
    interfaces: &Vec<String>,
    aliases: &AliasTable,
    nic: &str,
) -> (r: Option<String>)
    requires
        aliases.wf(),
    ensures
        match r {
            Some(v) => spec_resolve(interfaces@, aliases.entries@, nic@) == Some(v@),
            None => spec_resolve(interfaces@, aliases.entries@, nic@) is None,
        },
{
    let direct: String = nic.to_owned();
    if configured_interface(interfaces, &direct) {
        return Some(direct);
    }
    let mapped: String = map_wan_to_interface(nic);
    if configured_interface(interfaces, &mapped) {
        return Some(mapped);
    }
    aliases.get(nic)
}

} // verus!
