//! The routing model: virtual hostnames as clients declare them, and
//! the upstream addresses they resolve to.

use vstd::prelude::*;
use vstd::std_specs::iter::IteratorSpec;
use vstd::string::StringExecFns;

use crate::decimal::{dec_of, parse_u16, parse_u16_spec, push_dec_u32};
use crate::strutil::push_char;

verus! {

/// A virtual hostname from a client handshake. Equality is byte-exact
/// and case-sensitive.
#[derive(Debug)]
pub struct Hostname(String);

impl View for Hostname {
    type V = Seq<char>;

    closed spec fn view(&self) -> Seq<char> {
        self.0@
    }
}

impl Hostname {
    /// Wrap an owned string as a hostname.
    pub fn new(value: String) -> (r: Hostname)
        ensures
            r@ == value@,
    {
        Hostname(value)
    }

    /// Copy a borrowed string into a hostname.
    pub fn from_str(value: &str) -> (r: Hostname)
        ensures
            r@ == value@,
    {
        Hostname(String::from_str(value))
    }

    /// The hostname as a borrowed string.
    pub fn as_ref(&self) -> (r: &str)
        ensures
            r@ == self@,
    {
        self.0.as_str()
    }
}

impl From<String> for Hostname {
    fn from(value: String) -> (r: Hostname) {
        Hostname(value)
    }
}

impl vstd::std_specs::convert::FromSpecImpl<String> for Hostname {
    open spec fn obeys_from_spec() -> bool {
        true
    }

    closed spec fn from_spec(value: String) -> Self {
        Hostname(value)
    }
}

impl Clone for Hostname {
    fn clone(&self) -> (r: Self)
        ensures
            r == *self,
    {
        Hostname(self.0.clone())
    }
}

impl PartialEq for Hostname {
    fn eq(&self, other: &Hostname) -> (r: bool) {
        self.0 == other.0
    }
}

impl vstd::std_specs::cmp::PartialEqSpecImpl for Hostname {
    open spec fn obeys_eq_spec() -> bool {
        true
    }

    open spec fn eq_spec(&self, other: &Hostname) -> bool {
        self@ == other@
    }
}

impl Eq for Hostname {

}

/// The destination a hostname maps to: a host to dial and a port.
#[derive(Debug)]
pub struct Upstream {
    pub host: String,
    pub port: u16,
}

/// The mathematical shadow of an `Upstream`.
pub struct SpecUpstream {
    pub host: Seq<char>,
    pub port: u16,
}

impl View for Upstream {
    type V = SpecUpstream;

    open spec fn view(&self) -> SpecUpstream {
        SpecUpstream { host: self.host@, port: self.port }
    }
}

impl Clone for Upstream {
    fn clone(&self) -> (r: Self)
        ensures
            r == *self,
    {
        Upstream { host: self.host.clone(), port: self.port }
    }
}

impl PartialEq for Upstream {
    fn eq(&self, other: &Upstream) -> (r: bool) {
        self.host == other.host && self.port == other.port
    }
}

impl vstd::std_specs::cmp::PartialEqSpecImpl for Upstream {
    open spec fn obeys_eq_spec() -> bool {
        true
    }

    open spec fn eq_spec(&self, other: &Upstream) -> bool {
        self@ == other@
    }
}

impl Eq for Upstream {

}

/// The index of the first colon, scanning left to right.
pub open spec fn find_colon(chars: Seq<char>) -> Option<int>
    decreases chars.len(),
{
    if chars.len() == 0 {
        None
    } else if chars[0] == ':' {
        Some(0)
    } else {
        match find_colon(chars.drop_first()) {
            Some(i) => Some(i + 1),
            None => None,
        }
    }
}

proof fn lemma_find_colon_none(chars: Seq<char>)
    requires
        forall|j: int| 0 <= j < chars.len() ==> chars[j] != ':',
    ensures
        find_colon(chars) is None,
    decreases chars.len(),
{
    if chars.len() > 0 {
        assert(forall|j: int|
            0 <= j < chars.drop_first().len() ==> #[trigger] chars.drop_first()[j] == chars[j
                + 1]);
        lemma_find_colon_none(chars.drop_first());
    }
}

proof fn lemma_find_colon_at(chars: Seq<char>, k: int)
    requires
        0 <= k < chars.len(),
        chars[k] == ':',
        forall|j: int| 0 <= j < k ==> chars[j] != ':',
    ensures
        find_colon(chars) == Some(k),
    decreases k,
{
    if k == 0 {
    } else {
        assert(forall|j: int|
            0 <= j < chars.drop_first().len() ==> #[trigger] chars.drop_first()[j] == chars[j
                + 1]);
        lemma_find_colon_at(chars.drop_first(), k - 1);
    }
}

/// What parsing `host:port` yields: the host characters and the port
/// number, split at the first colon, with the port read exactly as
/// `str::parse::<u16>` reads it.
pub open spec fn parse_upstream_spec(chars: Seq<char>) -> Option<(Seq<char>, u16)> {
    match find_colon(chars) {
        None => None,
        Some(i) => match parse_u16_spec(chars.skip(i + 1)) {
            None => None,
            Some(p) => Some((chars.take(i), p)),
        },
    }
}

impl Upstream {
    /// The pair to hand a dialer: host and port.
    pub fn addr(&self) -> (r: (&str, u16))
        ensures
            r.0@ == self.host@,
            r.1 == self.port,
    {
        (self.host.as_str(), self.port)
    }

    /// The address formatted as `host:port`.
    pub fn addr_string(&self) -> (r: String)
        ensures
            r@ == self.host@ + seq![':'] + dec_of(self.port as nat),
    {
        let mut s = self.host.clone();
        push_char(&mut s, ':');
        push_dec_u32(&mut s, self.port as u32);
        s
    }

    /// Parse a `host:port` pair, the host being everything before the
    /// first colon and the port a decimal `u16` after it.
    pub fn parse(s: &str) -> (r: Option<Upstream>)
        ensures
            match r {
                Some(u) => parse_upstream_spec(s@) matches Some((h, p)) && u.host@ == h && u.port
                    == p,
                None => parse_upstream_spec(s@) is None,
            },
    {
        broadcast use vstd::string::axiom_spec_iter, vstd::string::next_postcondition;

        let ghost full: Seq<char> = s@;
        let mut it = s.chars();
        let mut host = String::new();
        let ghost mut k: int = 0;
        loop
            invariant
                0 <= k <= full.len(),
                full == s@,
                it.remaining() == full.skip(k),
                host@ == full.take(k),
                forall|j: int| 0 <= j < k ==> full[j] != ':',
            decreases full.len() - k,
        {
            let c = match it.next() {
                None => {
                    proof {
                        lemma_find_colon_none(full);
                    }
                    return None;
                },
                Some(c) => c,
            };
            assert(c == full[k]);
            if c == ':' {
                proof {
                    lemma_find_colon_at(full, k);
                }
                let mut port_str = String::new();
                let ghost mut m: int = k + 1;
                loop
                    invariant
                        k + 1 <= m <= full.len(),
                        full == s@,
                        0 <= k < full.len(),
                        it.remaining() == full.skip(m),
                        port_str@ == full.subrange(k + 1, m),
                        find_colon(full) == Some(k),
                        host@ == full.take(k),
                    decreases full.len() - m,
                {
                    let c2 = match it.next() {
                        None => {
                            proof {
                                assert(port_str@ =~= full.skip(k + 1));
                            }
                            match parse_u16(port_str.as_str()) {
                                None => {
                                    return None;
                                },
                                Some(p) => {
                                    return Some(Upstream { host, port: p });
                                },
                            }
                        },
                        Some(c2) => c2,
                    };
                    assert(c2 == full[m]);
                    push_char(&mut port_str, c2);
                    proof {
                        assert(port_str@ =~= full.subrange(k + 1, m + 1));
                        m = m + 1;
                    }
                }
            }
            push_char(&mut host, c);
            proof {
                assert(host@ =~= full.take(k + 1));
                k = k + 1;
            }
        }
    }
}

} // verus!
