//! Bookkeeping for the interface binder.
//!
//! Binding a socket to a named interface is platform work; what the
//! library owns is the decision around it: whether the device name
//! the OS reports back matches the one requested (guarding against a
//! silent no-op), and — on platforms without binding — that the
//! warning for an interface is emitted exactly once for the life of
//! the process, however many probes run.

use vstd::prelude::*;

verus! {

/// Whether `name` is among the remembered names.
pub open spec fn name_seen(names: Seq<String>, name: Seq<char>) -> bool {
    exists|i: int| 0 <= i < names.len() && #[trigger] names[i]@ == name
}

/// The interfaces already warned about: an idempotent seen-set, to
/// be guarded by the same lock as the rest of the shared state.
pub struct SeenSet {
    pub names: Vec<String>,
}

impl SeenSet {
    /// An empty set: every name is new.
    pub fn new() -> (s: Self)
        ensures
            s.names@ =~= Seq::<String>::empty(),
            forall|k: Seq<char>| !name_seen(s.names@, k),
    {
        SeenSet { names: Vec::new() }
    }

    /// Remembers `name` and says whether this was its first
    /// sighting — true exactly once per distinct name.
    pub fn first_sighting(&mut self, name: &str) -> (fresh: bool)
        ensures
            fresh == !name_seen(old(self).names@, name@),
            name_seen(final(self).names@, name@),
            forall|k: Seq<char>|
                #[trigger] name_seen(final(self).names@, k) == (name_seen(old(self).names@, k)
                    || k == name@),
    {
        let owned: String = name.to_owned();
        let n: usize = self.names.len();
        let mut i: usize = 0;
        while i < n
            invariant
                *self == *old(self),
                n == self.names@.len(),
                i <= n,
                owned@ == name@,
                forall|j: int| 0 <= j < i ==> self.names@[j]@ != name@,
            decreases n - i,
        {
            if self.names[i] == owned {
                proof {
                    assert(name_seen(self.names@, name@));
                }
                return false;
            }
            i = i + 1;
        }
        proof {
            assert(!name_seen(self.names@, name@));
        }
        self.names.push(owned);
        proof {
            assert(self.names@.last()@ == name@);
            assert(name_seen(self.names@, name@));
            assert forall|k: Seq<char>| #[trigger] name_seen(self.names@, k) == (name_seen(
                old(self).names@,
                k,
            ) || k == name@) by {
                if name_seen(self.names@, k) {
                    let j = choose|j: int|
                        0 <= j < self.names@.len() && #[trigger] self.names@[j]@ == k;
                    if j < old(self).names@.len() {
                        assert(self.names@[j] == old(self).names@[j]);
                        assert(name_seen(old(self).names@, k));
                    } else {
                        assert(k == name@);
                    }
                }
                if name_seen(old(self).names@, k) {
                    let j = choose|j: int|
                        0 <= j < old(self).names@.len() && #[trigger] old(self).names@[j]@ == k;
                    assert(self.names@[j]@ == k);
                    assert(name_seen(self.names@, k));
                }
            }
        }
        true
    }
}

/// `s` with its leading NUL characters removed.
pub open spec fn trim_nul_front(s: Seq<char>) -> Seq<char>
    decreases s.len(),
{
    if s.len() > 0 && s[0] == '\0' {
        trim_nul_front(s.drop_first())
    } else {
        s
    }
}

/// `s` with its trailing NUL characters removed.
pub open spec fn trim_nul_back(s: Seq<char>) -> Seq<char>
    decreases s.len(),
{
    if s.len() > 0 && s.last() == '\0' {
        trim_nul_back(s.drop_last())
    } else {
        s
    }
}

/// `s` with NUL padding removed on both ends.
pub open spec fn trim_nuls(s: Seq<char>) -> Seq<char> {
    trim_nul_back(trim_nul_front(s))
}

/// Whether the device name the OS reports back (a fixed-size,
/// NUL-padded buffer decoded to text) names the requested
/// interface: the report, stripped of its NUL padding, must equal
/// the request exactly.
pub fn bound_matches(requested: &str, reported: &str) -> (r: bool)
    ensures
        r == (requested@ == trim_nuls(reported@)),
{
    let n: usize = reported.unicode_len();
    let mut a: usize = 0;
    proof {
        assert(reported@.subrange(0, n as int) =~= reported@);
    }
    while a < n && reported.get_char(a) == '\0'
        invariant
            a <= n,
            n == reported@.len(),
            trim_nul_front(reported@) == trim_nul_front(reported@.subrange(a as int, n as int)),
        decreases n - a,
    {
        proof {
            assert(reported@.subrange(a as int, n as int).drop_first() =~= reported@.subrange(
                a as int + 1,
                n as int,
            ));
            assert(reported@.subrange(a as int, n as int)[0] == reported@[a as int]);
        }
        a = a + 1;
    }
    proof {
        if a < n {
            assert(reported@.subrange(a as int, n as int)[0] == reported@[a as int]);
        }
        assert(trim_nul_front(reported@) == reported@.subrange(a as int, n as int));
    }
    let mut b: usize = n;
    while b > a && reported.get_char(b - 1) == '\0'
        invariant
            a <= b <= n,
            n == reported@.len(),
            trim_nul_back(reported@.subrange(a as int, n as int)) == trim_nul_back(
                reported@.subrange(a as int, b as int),
            ),
        decreases b,
    {
        proof {
            assert(reported@.subrange(a as int, b as int).drop_last() =~= reported@.subrange(
                a as int,
                b as int - 1,
            ));
            assert(reported@.subrange(a as int, b as int).last() == reported@[b as int - 1]);
        }
        b = b - 1;
    }
    proof {
        if b > a {
            assert(reported@.subrange(a as int, b as int).last() == reported@[b as int - 1]);
        }
        assert(trim_nul_back(reported@.subrange(a as int, b as int)) == reported@.subrange(
            a as int,
            b as int,
        ));
        assert(trim_nuls(reported@) == reported@.subrange(a as int, b as int));
    }
    let core = reported.substring_char(a, b);
    let left: String = requested.to_owned();
    let right: String = core.to_owned();
    left == right
}

} // verus!
