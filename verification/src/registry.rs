//! The dynamic upstream registry: a primary map from discovery
//! identifier to server, and a secondary index from hostname to
//! identifier that must never disagree with it.
//!
//! The two maps are concurrent maps from the `dashmap` crate, held
//! behind wrappers whose contracts state plain map semantics; every
//! mutation here goes through `&mut self`, so the proofs cover the
//! sequential content while the crate supplies the locking.

use vstd::prelude::*;

use vstd::string::StringSliceAdditionalSpecFns;

use crate::model::{Hostname, SpecUpstream, Upstream};

verus! {

/// A container identifier: 32 bytes, parsed from hexadecimal.
#[derive(Debug, Hash, Clone)]
pub struct ContainerId {
    bytes: Vec<u8>,
}

impl View for ContainerId {
    type V = Seq<u8>;

    closed spec fn view(&self) -> Seq<u8> {
        self.bytes@
    }
}

/// A well-formed container identifier holds exactly 32 bytes.
pub open spec fn container_id_wf(id: Seq<u8>) -> bool {
    id.len() == 32
}

/// The hexadecimal value of one ASCII byte, if it has one.
pub open spec fn hex_digit_value(b: u8) -> Option<u8> {
    if 0x30 <= b <= 0x39 {
        Some((b - 0x30) as u8)
    } else if 0x61 <= b <= 0x66 {
        Some((b - 0x61 + 10) as u8)
    } else if 0x41 <= b <= 0x46 {
        Some((b - 0x41 + 10) as u8)
    } else {
        None
    }
}

/// The nibble values of a byte sequence, every non-hexadecimal byte
/// skipped.
pub open spec fn hex_nibbles(bytes: Seq<u8>) -> Seq<u8>
    decreases bytes.len(),
{
    if bytes.len() == 0 {
        Seq::empty()
    } else {
        let rest = hex_nibbles(bytes.drop_first());
        match hex_digit_value(bytes[0]) {
            Some(v) => seq![v] + rest,
            None => rest,
        }
    }
}

/// The bytes denoted by a sequence of nibble values, two per byte.
pub open spec fn bytes_of_nibbles(nibbles: Seq<u8>) -> Seq<u8>
    decreases nibbles.len(),
{
    if nibbles.len() < 2 {
        Seq::empty()
    } else {
        seq![(nibbles[0] * 16 + nibbles[1]) as u8] + bytes_of_nibbles(nibbles.skip(2))
    }
}

/// Why a container identifier failed to parse.
#[derive(Clone, Copy, Debug, PartialEq, Eq, Structural)]
pub enum ContainerIdError {
    /// Fewer than 64 hexadecimal digits.
    TooFewNibbles,
    /// More than 64 hexadecimal digits.
    TooManyNibbles,
}

proof fn lemma_hex_nibbles_take_step(bytes: Seq<u8>, i: int)
    requires
        0 <= i < bytes.len(),
    ensures
        hex_nibbles(bytes.take(i + 1)) == match hex_digit_value(bytes[i]) {
            Some(v) => hex_nibbles(bytes.take(i)) + seq![v],
            None => hex_nibbles(bytes.take(i)),
        },
    decreases i,
{
    if i == 0 {
        assert(bytes.take(1) =~= seq![bytes[0]]);
        assert(bytes.take(1).drop_first() =~= Seq::<u8>::empty());
        assert(bytes.take(0) =~= Seq::<u8>::empty());
        assert(hex_nibbles(Seq::<u8>::empty()) == Seq::<u8>::empty());
        assert(bytes.take(1)[0] == bytes[0]);
        match hex_digit_value(bytes[0]) {
            Some(v) => {
                assert(hex_nibbles(bytes.take(1)) =~= seq![v]);
            },
            None => {
                assert(hex_nibbles(bytes.take(1)) =~= Seq::<u8>::empty());
            },
        }
    } else {
        let sub = bytes.drop_first();
        lemma_hex_nibbles_take_step(sub, i - 1);
        assert(bytes.take(i + 1).drop_first() =~= sub.take(i));
        assert(bytes.take(i).drop_first() =~= sub.take(i - 1));
        assert(bytes.take(i + 1)[0] == bytes[0]);
        assert(bytes.take(i)[0] == bytes[0]);
        assert(sub[i - 1] == bytes[i]);
        match hex_digit_value(bytes[i]) {
            Some(v) => {
                assert(hex_nibbles(bytes.take(i + 1)) =~= hex_nibbles(bytes.take(i)) + seq![v]);
            },
            None => {
                assert(hex_nibbles(bytes.take(i + 1)) =~= hex_nibbles(bytes.take(i)));
            },
        }
    }
}

impl ContainerId {
    /// Parse a 64-digit hexadecimal identifier, skipping any bytes
    /// that are not hexadecimal digits, exactly 64 digits required.
    pub fn parse(s: &str) -> (r: Result<ContainerId, ContainerIdError>)
        ensures
            match r {
                Ok(id) => {
                    &&& hex_nibbles(s.spec_bytes()).len() == 64
                    &&& id@ == bytes_of_nibbles(hex_nibbles(s.spec_bytes()))
                    &&& container_id_wf(id@)
                },
                Err(ContainerIdError::TooFewNibbles) => hex_nibbles(s.spec_bytes()).len() < 64,
                Err(ContainerIdError::TooManyNibbles) => hex_nibbles(s.spec_bytes()).len() > 64,
            },
    {
        let bytes: &[u8] = s.as_bytes();
        let ghost all: Seq<u8> = s.spec_bytes();
        let ghost nibs: Seq<u8> = hex_nibbles(all);
        let mut nibbles: Vec<u8> = Vec::new();
        let mut i: usize = 0;
        let n = bytes.len();
        proof {
            assert(all.take(0) =~= Seq::<u8>::empty());
        }
        while i < n
            invariant
                0 <= i <= n,
                n == all.len(),
                bytes@ == all,
                all == s.spec_bytes(),
                nibs == hex_nibbles(all),
                nibbles@ == hex_nibbles(all.take(i as int)),
                nibbles@.len() <= 64,
            decreases n - i,
        {
            proof {
                lemma_hex_nibbles_take_step(all, i as int);
            }
            let b = bytes[i];
            let v: u8 = if b >= 0x30 && b <= 0x39 {
                b - 0x30
            } else if b >= 0x61 && b <= 0x66 {
                b - 0x61 + 10
            } else if b >= 0x41 && b <= 0x46 {
                b - 0x41 + 10
            } else {
                i = i + 1;
                continue ;
            };
            if nibbles.len() >= 64 {
                proof {
                    lemma_hex_nibbles_prefix(all, i as int + 1);
                }
                return Err(ContainerIdError::TooManyNibbles);
            }
            nibbles.push(v);
            proof {
                assert(nibbles@ =~= hex_nibbles(all.take(i as int + 1)));
            }
            i = i + 1;
        }
        proof {
            assert(all.take(n as int) =~= all);
        }
        if nibbles.len() < 64 {
            return Err(ContainerIdError::TooFewNibbles);
        }
        proof {
            lemma_hex_nibbles_small(all);
            assert(bytes_of_nibbles(nibs.take(0)) == Seq::<u8>::empty());
            assert(nibs.take(0) =~= Seq::<u8>::empty());
        }
        let mut out: Vec<u8> = Vec::new();
        let mut j: usize = 0;
        while j < 64
            invariant
                0 <= j <= 64,
                j % 2 == 0,
                nibbles@ == nibs,
                nibs == hex_nibbles(all),
                nibs.len() == 64,
                forall|t: int| 0 <= t < nibs.len() ==> #[trigger] nibs[t] < 16,
                out@ == bytes_of_nibbles(nibs.take(j as int)),
                out@.len() == j / 2,
            decreases 64 - j,
        {
            let hi = nibbles[j];
            let lo = nibbles[j + 1];
            out.push(hi * 16 + lo);
            proof {
                lemma_bytes_of_nibbles_step(nibs, j as int);
                assert(out@ =~= bytes_of_nibbles(nibs.take(j as int + 2)));
            }
            j = j + 2;
        }
        proof {
            assert(nibs.take(64) =~= nibs);
        }
        Ok(ContainerId { bytes: out })
    }

    /// The identifier rendered as 64 lowercase hexadecimal digits.
    pub fn hex_string(&self) -> (r: String)
        ensures
            r@ == hex_chars_of(self@),
    {
        let mut s = String::new();
        let mut i: usize = 0;
        let n = self.bytes.len();
        proof {
            assert(self@.take(0) =~= Seq::<u8>::empty());
        }
        while i < n
            invariant
                0 <= i <= n,
                n == self@.len(),
                self@ == self.bytes@,
                s@ == hex_chars_of(self@.take(i as int)),
            decreases n - i,
        {
            proof {
                lemma_hex_chars_step(self@, i as int);
            }
            let b = self.bytes[i];
            crate::strutil::push_char(&mut s, hex_digit_char(b / 16));
            crate::strutil::push_char(&mut s, hex_digit_char(b % 16));
            proof {
                assert(s@ =~= hex_chars_of(self@.take(i as int + 1)));
            }
            i = i + 1;
        }
        proof {
            assert(self@.take(n as int) =~= self@);
        }
        s
    }
}

proof fn lemma_hex_nibbles_prefix(bytes: Seq<u8>, i: int)
    requires
        0 <= i <= bytes.len(),
    ensures
        hex_nibbles(bytes.take(i)).len() <= hex_nibbles(bytes).len(),
    decreases bytes.len(),
{
    if i == 0 {
        assert(bytes.take(0) =~= Seq::<u8>::empty());
    } else {
        let sub = bytes.drop_first();
        lemma_hex_nibbles_prefix(sub, i - 1);
        assert(bytes.take(i).drop_first() =~= sub.take(i - 1));
        assert(bytes.take(i)[0] == bytes[0]);
    }
}

/// Nibble values below sixteen, as `hex_nibbles` produces them.
proof fn lemma_hex_nibbles_small(bytes: Seq<u8>)
    ensures
        forall|t: int|
            0 <= t < hex_nibbles(bytes).len() ==> #[trigger] hex_nibbles(bytes)[t] < 16,
    decreases bytes.len(),
{
    if bytes.len() > 0 {
        lemma_hex_nibbles_small(bytes.drop_first());
        let rest = hex_nibbles(bytes.drop_first());
        match hex_digit_value(bytes[0]) {
            Some(v) => {
                assert(hex_nibbles(bytes) == seq![v] + rest);
                assert forall|t: int|
                    0 <= t < hex_nibbles(bytes).len() implies #[trigger] hex_nibbles(
                    bytes,
                )[t] < 16 by {
                    if t == 0 {
                        assert(hex_nibbles(bytes)[0] == v);
                    } else {
                        assert(hex_nibbles(bytes)[t] == rest[t - 1]);
                    }
                }
            },
            None => {
                assert(hex_nibbles(bytes) == rest);
            },
        }
    }
}

proof fn lemma_bytes_of_nibbles_step(nibs: Seq<u8>, j: int)
    requires
        0 <= j,
        j % 2 == 0,
        j + 2 <= nibs.len(),
    ensures
        bytes_of_nibbles(nibs.take(j + 2)) == bytes_of_nibbles(nibs.take(j)) + seq![
            (nibs[j] * 16 + nibs[j + 1]) as u8,
        ],
    decreases j,
{
    if j == 0 {
        assert(nibs.take(2)[0] == nibs[0]);
        assert(nibs.take(2)[1] == nibs[1]);
        assert(nibs.take(2).skip(2) =~= Seq::<u8>::empty());
        assert(bytes_of_nibbles(Seq::<u8>::empty()) == Seq::<u8>::empty());
        assert(bytes_of_nibbles(nibs.take(2)) =~= seq![(nibs[0] * 16 + nibs[1]) as u8]);
        assert(nibs.take(0) =~= Seq::<u8>::empty());
        assert(bytes_of_nibbles(nibs.take(0)) == Seq::<u8>::empty());
    } else {
        let sub = nibs.skip(2);
        lemma_bytes_of_nibbles_step(sub, j - 2);
        assert(nibs.take(j + 2)[0] == nibs[0]);
        assert(nibs.take(j + 2)[1] == nibs[1]);
        assert(nibs.take(j)[0] == nibs[0]);
        assert(nibs.take(j)[1] == nibs[1]);
        assert(nibs.take(j + 2).skip(2) =~= sub.take(j));
        assert(nibs.take(j).skip(2) =~= sub.take(j - 2));
        assert(sub[j - 2] == nibs[j]);
        assert(sub[j - 1] == nibs[j + 1]);
        assert(bytes_of_nibbles(nibs.take(j + 2)) =~= bytes_of_nibbles(nibs.take(j)) + seq![
            (nibs[j] * 16 + nibs[j + 1]) as u8,
        ]);
    }
}

/// The lowercase hexadecimal digit for a value below sixteen.
pub open spec fn spec_hex_digit_char(d: nat) -> char
    recommends
        d < 16,
{
    if d < 10 {
        ((0x30 + d) as u8) as char
    } else {
        ((0x57 + d) as u8) as char
    }
}

fn hex_digit_char(d: u8) -> (r: char)
    requires
        d < 16,
    ensures
        r == spec_hex_digit_char(d as nat),
{
    if d < 10 {
        (0x30 + d) as char
    } else {
        (0x57 + d) as char
    }
}

/// The lowercase hexadecimal rendering of a byte sequence, two digits
/// per byte.
pub open spec fn hex_chars_of(bytes: Seq<u8>) -> Seq<char>
    decreases bytes.len(),
{
    if bytes.len() == 0 {
        Seq::empty()
    } else {
        seq![
            spec_hex_digit_char((bytes[0] / 16) as nat),
            spec_hex_digit_char((bytes[0] % 16) as nat),
        ] + hex_chars_of(bytes.drop_first())
    }
}

proof fn lemma_hex_chars_step(bytes: Seq<u8>, i: int)
    requires
        0 <= i < bytes.len(),
    ensures
        hex_chars_of(bytes.take(i + 1)) == hex_chars_of(bytes.take(i)) + seq![
            spec_hex_digit_char((bytes[i] / 16) as nat),
            spec_hex_digit_char((bytes[i] % 16) as nat),
        ],
    decreases i,
{
    if i == 0 {
        assert(bytes.take(1)[0] == bytes[0]);
        assert(bytes.take(1).drop_first() =~= Seq::<u8>::empty());
        assert(bytes.take(0) =~= Seq::<u8>::empty());
        assert(hex_chars_of(bytes.take(1)) =~= seq![
            spec_hex_digit_char((bytes[0] / 16) as nat),
            spec_hex_digit_char((bytes[0] % 16) as nat),
        ]);
    } else {
        let sub = bytes.drop_first();
        lemma_hex_chars_step(sub, i - 1);
        assert(bytes.take(i + 1).drop_first() =~= sub.take(i));
        assert(bytes.take(i).drop_first() =~= sub.take(i - 1));
        assert(bytes.take(i + 1)[0] == bytes[0]);
        assert(bytes.take(i)[0] == bytes[0]);
        assert(sub[i - 1] == bytes[i]);
        assert(hex_chars_of(bytes.take(i + 1)) =~= hex_chars_of(bytes.take(i)) + seq![
            spec_hex_digit_char((bytes[i] / 16) as nat),
            spec_hex_digit_char((bytes[i] % 16) as nat),
        ]);
    }
}

/// A server's identity, namespaced by the discovery source.
#[derive(Debug, Hash, Clone)]
pub enum ServerId {
    Docker(ContainerId),
}

impl View for ServerId {
    type V = Seq<u8>;

    open spec fn view(&self) -> Seq<u8> {
        match self {
            ServerId::Docker(id) => id@,
        }
    }
}

impl PartialEq for ServerId {
    fn eq(&self, other: &ServerId) -> (r: bool) {
        match (self, other) {
            (ServerId::Docker(a), ServerId::Docker(b)) => {
                let x: &Vec<u8> = a.raw_bytes();
                let y: &Vec<u8> = b.raw_bytes();
                bytes_equal(x, y)
            },
        }
    }
}

/// Byte-exact comparison of two buffers.
fn bytes_equal(x: &Vec<u8>, y: &Vec<u8>) -> (r: bool)
    ensures
        r == (x@ == y@),
{
    if x.len() != y.len() {
        proof {
            assert(x@ != y@);
        }
        return false;
    }
    let n = x.len();
    let mut i: usize = 0;
    while i < n
        invariant
            0 <= i <= n,
            n == x@.len(),
            n == y@.len(),
            forall|j: int| 0 <= j < i ==> x@[j] == y@[j],
        decreases n - i,
    {
        if x[i] != y[i] {
            return false;
        }
        i = i + 1;
    }
    proof {
        assert(x@ =~= y@);
    }
    true
}

impl vstd::std_specs::cmp::PartialEqSpecImpl for ServerId {
    open spec fn obeys_eq_spec() -> bool {
        true
    }

    open spec fn eq_spec(&self, other: &ServerId) -> bool {
        self@ == other@
    }
}

impl Eq for ServerId {

}

impl ContainerId {
    /// The raw 32 bytes.
    pub fn raw_bytes(&self) -> (r: &Vec<u8>)
        ensures
            r@ == self@,
    {
        &self.bytes
    }
}

/// A discovered server: the hostnames it serves and where to dial it.
#[derive(Debug)]
pub struct ActiveServer {
    pub hostnames: Vec<Hostname>,
    pub upstream: Upstream,
}

/// The mathematical shadow of an `ActiveServer`.
pub struct SpecActiveServer {
    pub hostnames: Seq<Seq<char>>,
    pub upstream: SpecUpstream,
}

/// The views of a list of hostnames.
pub open spec fn hostname_views(s: Seq<Hostname>) -> Seq<Seq<char>> {
    s.map_values(|h: Hostname| h@)
}

impl View for ActiveServer {
    type V = SpecActiveServer;

    open spec fn view(&self) -> SpecActiveServer {
        SpecActiveServer { hostnames: hostname_views(self.hostnames@), upstream: self.upstream@ }
    }
}

impl Clone for ActiveServer {
    fn clone(&self) -> (r: Self)
        ensures
            r@ == self@,
    {
        let mut hostnames: Vec<Hostname> = Vec::new();
        let mut i: usize = 0;
        let n = self.hostnames.len();
        while i < n
            invariant
                0 <= i <= n,
                n == self.hostnames@.len(),
                hostname_views(hostnames@) == hostname_views(self.hostnames@).take(i as int),
            decreases n - i,
        {
            let ghost prev: Seq<Hostname> = hostnames@;
            let c = self.hostnames[i].clone();
            assert(c == self.hostnames@[i as int]);
            hostnames.push(c);
            proof {
                let lhs = hostname_views(hostnames@);
                let rhs = hostname_views(self.hostnames@).take(i as int + 1);
                assert(hostname_views(prev).len() == prev.len());
                assert(hostname_views(self.hostnames@).len() == self.hostnames@.len());
                assert(prev.len() == i as int);
                assert(hostnames@.len() == prev.len() + 1);
                assert(lhs.len() == rhs.len());
                assert forall|j: int| 0 <= j < lhs.len() implies lhs[j] == rhs[j] by {
                    assert(lhs[j] == hostnames@[j]@);
                    assert(rhs[j] == self.hostnames@[j]@);
                    if j < i as int {
                        assert(hostnames@[j] == prev[j]);
                        assert(hostname_views(prev)[j] == prev[j]@);
                    } else {
                        assert(hostnames@[j] == c);
                    }
                }
                assert(lhs =~= rhs);
            }
            i = i + 1;
        }
        proof {
            assert(hostname_views(self.hostnames@).take(n as int) =~= hostname_views(
                self.hostnames@,
            ));
        }
        ActiveServer { hostnames, upstream: self.upstream.clone() }
    }
}


/// The primary table: a concurrent map from server identity to server.
///
/// Relies on `dashmap::DashMap` for storage and locking; the wrappers
/// below state plain map semantics over its contents. Mutation goes
/// through `&mut self`, so the stated semantics are sequential.
#[verifier::external_body]
pub struct ServerTable {
    inner: dashmap::DashMap<ServerId, ActiveServer>,
}

/// What the primary table holds, keyed by the identifier's bytes.
pub uninterp spec fn server_table_contents(t: ServerTable) -> Map<Seq<u8>, SpecActiveServer>;

impl ServerTable {
    /// Relies on DashMap::new: a new table holds nothing.
    #[verifier::external_body]
    fn new() -> (r: ServerTable)
        ensures
            server_table_contents(r) == (Map::<Seq<u8>, SpecActiveServer>::empty()),
    {
        ServerTable { inner: dashmap::DashMap::new() }
    }

    /// Relies on DashMap::contains_key: whether the key is present.
    #[verifier::external_body]
    fn contains(&self, id: &ServerId) -> (r: bool)
        ensures
            r == server_table_contents(*self).contains_key(id@),
    {
        self.inner.contains_key(id)
    }

    /// Relies on DashMap::get: the value stored under the key, if any.
    #[verifier::external_body]
    fn get(&self, id: &ServerId) -> (r: Option<ActiveServer>)
        ensures
            match r {
                Some(v) => server_table_contents(*self).contains_key(id@) && v@
                    == server_table_contents(*self)[id@],
                None => !server_table_contents(*self).contains_key(id@),
            },
    {
        self.inner.get(id).map(|entry| entry.value().clone())
    }

    /// Relies on DashMap::insert: stores the value under the key,
    /// replacing any previous value.
    #[verifier::external_body]
    fn put(&mut self, id: &ServerId, server: ActiveServer)
        ensures
            server_table_contents(*final(self)) == server_table_contents(*old(self)).insert(
                id@,
                server@,
            ),
    {
        self.inner.insert(id.clone(), server);
    }

    /// Relies on DashMap::remove: deletes the entry under the key and
    /// returns its value.
    #[verifier::external_body]
    fn take_out(&mut self, id: &ServerId) -> (r: Option<ActiveServer>)
        ensures
            server_table_contents(*final(self)) == server_table_contents(*old(self)).remove(id@),
            match r {
                Some(v) => server_table_contents(*old(self)).contains_key(id@) && v@
                    == server_table_contents(*old(self))[id@],
                None => !server_table_contents(*old(self)).contains_key(id@),
            },
    {
        self.inner.remove(id).map(|(_, v)| v)
    }

    /// Relies on DashMap::len: the number of entries.
    #[verifier::external_body]
    fn count(&self) -> (r: usize)
        ensures
            r as nat == server_table_contents(*self).dom().len(),
    {
        self.inner.len()
    }
}

/// The secondary index: a concurrent map from hostname to identity.
///
/// Relies on `dashmap::DashMap` exactly as the primary table does.
#[verifier::external_body]
pub struct HostnameTable {
    inner: dashmap::DashMap<String, ServerId>,
}

/// What the secondary index holds, keyed by the hostname's characters.
pub uninterp spec fn hostname_table_contents(t: HostnameTable) -> Map<Seq<char>, Seq<u8>>;

impl HostnameTable {
    /// Relies on DashMap::new: a new table holds nothing.
    #[verifier::external_body]
    fn new() -> (r: HostnameTable)
        ensures
            hostname_table_contents(r) == (Map::<Seq<char>, Seq<u8>>::empty()),
    {
        HostnameTable { inner: dashmap::DashMap::new() }
    }

    /// Relies on DashMap::contains_key: whether the key is present.
    #[verifier::external_body]
    fn contains(&self, hostname: &str) -> (r: bool)
        ensures
            r == hostname_table_contents(*self).contains_key(hostname@),
    {
        self.inner.contains_key(hostname)
    }

    /// Relies on DashMap::get: the identity stored under the hostname.
    #[verifier::external_body]
    fn get(&self, hostname: &str) -> (r: Option<ServerId>)
        ensures
            match r {
                Some(sid) => hostname_table_contents(*self).contains_key(hostname@) && sid@
                    == hostname_table_contents(*self)[hostname@],
                None => !hostname_table_contents(*self).contains_key(hostname@),
            },
    {
        self.inner.get(hostname).map(|entry| entry.value().clone())
    }

    /// Relies on DashMap::insert: stores the identity under the
    /// hostname, replacing any previous entry.
    #[verifier::external_body]
    fn put(&mut self, hostname: &str, sid: &ServerId)
        ensures
            hostname_table_contents(*final(self)) == hostname_table_contents(*old(self)).insert(
                hostname@,
                sid@,
            ),
    {
        self.inner.insert(hostname.to_string(), sid.clone());
    }

    /// Relies on DashMap::remove: deletes the entry under the hostname.
    #[verifier::external_body]
    fn delete(&mut self, hostname: &str)
        ensures
            hostname_table_contents(*final(self)) == hostname_table_contents(*old(self)).remove(
                hostname@,
            ),
    {
        self.inner.remove(hostname);
    }
}

/// Why an insertion was refused.
#[derive(Debug)]
pub enum ServerInsertionError {
    /// The identifier is already registered.
    ServerIdExists,
    /// One of the hostnames is already bound.
    HostnameExists(HostnameExistsError),
}

/// The hostname that collided, and the server that was being inserted.
#[derive(Debug)]
pub struct HostnameExistsError {
    hostname: Hostname,
    server: ActiveServer,
}

impl HostnameExistsError {
    /// The hostname that was already bound.
    pub fn hostname(&self) -> (r: &str)
        ensures
            r@ == self.spec_hostname(),
    {
        self.hostname.as_ref()
    }

    /// The server whose insertion failed.
    pub fn server(&self) -> (r: &ActiveServer)
        ensures
            r@ == self.spec_server(),
    {
        &self.server
    }

    /// The spec view of the colliding hostname.
    pub closed spec fn spec_hostname(&self) -> Seq<char> {
        self.hostname@
    }

    /// The spec view of the refused server.
    pub closed spec fn spec_server(&self) -> SpecActiveServer {
        self.server@
    }
}

/// The mathematical shadow of the registry: the two maps together.
pub struct SpecRegistry {
    pub servers: Map<Seq<u8>, SpecActiveServer>,
    pub index: Map<Seq<char>, Seq<u8>>,
}

/// The registry invariants:
/// every index entry points at a present server (no dangling
/// hostnames), an index entry's hostname is among that server's
/// hostnames, and every stored hostname is indexed back to exactly its
/// server. Together these make the index an inverse of the hostname
/// lists, and hostnames globally unique across servers.
pub open spec fn registry_maps_wf(
    servers: Map<Seq<u8>, SpecActiveServer>,
    index: Map<Seq<char>, Seq<u8>>,
) -> bool {
    &&& forall|h: Seq<char>| #[trigger]
        index.contains_key(h) ==> servers.contains_key(index[h])
    &&& forall|h: Seq<char>| #[trigger]
        index.contains_key(h) ==> servers[index[h]].hostnames.contains(h)
    &&& forall|sid: Seq<u8>, k: int|
        #![trigger servers[sid].hostnames[k]]
        servers.contains_key(sid) && 0 <= k < servers[sid].hostnames.len() ==> {
            &&& index.contains_key(servers[sid].hostnames[k])
            &&& index[servers[sid].hostnames[k]] == sid
        }
}

pub open spec fn registry_wf(r: SpecRegistry) -> bool {
    registry_maps_wf(r.servers, r.index)
}

/// The index entries an insertion adds: each hostname mapped to the
/// new identifier.
pub open spec fn index_additions(hostnames: Seq<Seq<char>>, sid: Seq<u8>) -> Map<
    Seq<char>,
    Seq<u8>,
> {
    Map::new(|h: Seq<char>| hostnames.contains(h), |h: Seq<char>| sid)
}

/// Whether claiming hostname `k` would collide: either it is already
/// bound in the index, or it repeats an earlier hostname of the same
/// insertion.
pub open spec fn hostname_conflict_at(
    index: Map<Seq<char>, Seq<u8>>,
    hostnames: Seq<Seq<char>>,
    k: int,
) -> bool {
    ||| index.contains_key(hostnames[k])
    ||| exists|j: int| 0 <= j < k && hostnames[j] == hostnames[k]
}

/// The registry of discovered servers: the primary map and its
/// invertible hostname index, every mutation preserving `registry_wf`.
pub struct DiscoveredServers {
    active_servers: ServerTable,
    hostname_index: HostnameTable,
}

impl View for DiscoveredServers {
    type V = SpecRegistry;

    closed spec fn view(&self) -> SpecRegistry {
        SpecRegistry {
            servers: server_table_contents(self.active_servers),
            index: hostname_table_contents(self.hostname_index),
        }
    }
}

impl Default for DiscoveredServers {
    /// An empty registry.
    fn default() -> (r: DiscoveredServers)
        ensures
            r@.servers == Map::<Seq<u8>, SpecActiveServer>::empty(),
            r@.index == Map::<Seq<char>, Seq<u8>>::empty(),
            registry_wf(r@),
    {
        DiscoveredServers::new()
    }
}

impl DiscoveredServers {
    /// An empty registry.
    pub fn new() -> (r: DiscoveredServers)
        ensures
            r@.servers == Map::<Seq<u8>, SpecActiveServer>::empty(),
            r@.index == Map::<Seq<char>, Seq<u8>>::empty(),
            registry_wf(r@),
    {
        let r = DiscoveredServers {
            active_servers: ServerTable::new(),
            hostname_index: HostnameTable::new(),
        };
        r
    }

    /// The number of registered servers.
    pub fn len(&self) -> (r: usize)
        ensures
            r as nat == self@.servers.dom().len(),
    {
        self.active_servers.count()
    }

    /// Whether no server is registered.
    pub fn is_empty(&self) -> (r: bool)
        ensures
            r == (self@.servers.dom().len() == 0),
    {
        self.len() == 0
    }

    /// Look a hostname up through the index: the server it is bound
    /// to, which under the invariants never dangles.
    pub fn get_by_hostname(&self, hostname: &str) -> (r: Option<ActiveServer>)
        requires
            registry_wf(self@),
        ensures
            match r {
                Some(srv) => self@.index.contains_key(hostname@) && srv@
                    == self@.servers[self@.index[hostname@]],
                None => !self@.index.contains_key(hostname@),
            },
    {
        match self.hostname_index.get(hostname) {
            None => None,
            Some(sid) => {
                proof {
                    assert(self@.index.contains_key(hostname@));
                    assert(self@.servers.contains_key(self@.index[hostname@]));
                }
                let server = self.active_servers.get(&sid);
                server
            },
        }
    }

    /// Register a server atomically: either every hostname is claimed
    /// and the server committed, or nothing changes at all.
    pub fn insert(&mut self, id: ServerId, server: ActiveServer) -> (r: Result<
        (),
        ServerInsertionError,
    >)
        requires
            registry_wf(old(self)@),
        ensures
            registry_wf(final(self)@),
            match r {
                Ok(()) => {
                    &&& !old(self)@.servers.contains_key(id@)
                    &&& forall|k: int|
                        0 <= k < server@.hostnames.len() ==> !hostname_conflict_at(
                            old(self)@.index,
                            server@.hostnames,
                            k,
                        )
                    &&& final(self)@.servers == old(self)@.servers.insert(id@, server@)
                    &&& final(self)@.index == old(self)@.index.union_prefer_right(
                        index_additions(server@.hostnames, id@),
                    )
                },
                Err(ServerInsertionError::ServerIdExists) => {
                    &&& old(self)@.servers.contains_key(id@)
                    &&& final(self)@.servers == old(self)@.servers
                    &&& final(self)@.index == old(self)@.index
                },
                Err(ServerInsertionError::HostnameExists(e)) => {
                    &&& !old(self)@.servers.contains_key(id@)
                    &&& final(self)@.servers == old(self)@.servers
                    &&& final(self)@.index == old(self)@.index
                    &&& e.spec_server() == server@
                    &&& exists|k: int|
                        {
                            &&& 0 <= k < server@.hostnames.len()
                            &&& e.spec_hostname() == server@.hostnames[k]
                            &&& #[trigger] hostname_conflict_at(
                                old(self)@.index,
                                server@.hostnames,
                                k,
                            )
                            &&& forall|j: int|
                                0 <= j < k ==> !hostname_conflict_at(
                                    old(self)@.index,
                                    server@.hostnames,
                                    j,
                                )
                        }
                },
            },
    {
        let ghost orig_index = hostname_table_contents(old(self).hostname_index);
        let ghost orig_servers = server_table_contents(old(self).active_servers);
        let ghost views = server@.hostnames;
        if self.active_servers.contains(&id) {
            return Err(ServerInsertionError::ServerIdExists);
        }
        let n = server.hostnames.len();
        let mut i: usize = 0;
        proof {
            assert(index_additions(views.take(0), id@) =~= Map::<Seq<char>, Seq<u8>>::empty());
            assert(orig_index.union_prefer_right(index_additions(views.take(0), id@))
                =~= orig_index);
        }
        while i < n
            invariant
                0 <= i <= n,
                n == server.hostnames@.len(),
                views == hostname_views(server.hostnames@),
                views == server@.hostnames,
                registry_maps_wf(orig_servers, orig_index),
                orig_servers == old(self)@.servers,
                orig_index == old(self)@.index,
                server_table_contents(self.active_servers) == orig_servers,
                !orig_servers.contains_key(id@),
                hostname_table_contents(self.hostname_index) == orig_index.union_prefer_right(
                    index_additions(views.take(i as int), id@),
                ),
                forall|k: int| 0 <= k < i ==> !hostname_conflict_at(orig_index, views, k),
            decreases n - i,
        {
            let h: &Hostname = &server.hostnames[i];
            assert(h@ == views[i as int]);
            if self.hostname_index.contains(h.as_ref()) {
                proof {
                    lemma_claimed_conflict(orig_index, views, i as int, id@);
                }
                let mut j: usize = 0;
                while j < i
                    invariant
                        0 <= j <= i <= n,
                        i < n,
                        n == server.hostnames@.len(),
                        views == hostname_views(server.hostnames@),
                        views == server@.hostnames,
                        !orig_servers.contains_key(id@),
                        registry_maps_wf(orig_servers, orig_index),
                        server_table_contents(self.active_servers) == orig_servers,
                        hostname_table_contents(self.hostname_index)
                            == orig_index.union_prefer_right(
                            index_additions(views.subrange(j as int, i as int), id@),
                        ),
                        hostname_conflict_at(orig_index, views, i as int),
                        forall|k: int| 0 <= k < i ==> !hostname_conflict_at(orig_index, views, k),
                    decreases i - j,
                {
                    let hj: &Hostname = &server.hostnames[j];
                    assert(hj@ == views[j as int]);
                    self.hostname_index.delete(hj.as_ref());
                    proof {
                        lemma_rollback_step(orig_index, views, j as int, i as int, id@);
                    }
                    j = j + 1;
                }
                proof {
                    assert(views.subrange(i as int, i as int) =~= Seq::<Seq<char>>::empty());
                    assert(index_additions(views.subrange(i as int, i as int), id@) =~= Map::<
                        Seq<char>,
                        Seq<u8>,
                    >::empty());
                    assert(orig_index.union_prefer_right(
                        Map::<Seq<char>, Seq<u8>>::empty(),
                    ) =~= orig_index);
                }
                let conflict = server.hostnames[i].clone();
                proof {
                    assert(conflict@ == views[i as int]);
                    assert(hostname_conflict_at(orig_index, views, i as int));
                    assert(hostname_table_contents(self.hostname_index) == orig_index);
                    assert(server_table_contents(self.active_servers) == orig_servers);
                    assert(registry_maps_wf(orig_servers, orig_index));
                }
                return Err(
                    ServerInsertionError::HostnameExists(
                        HostnameExistsError { hostname: conflict, server },
                    ),
                );
            }
            proof {
                assert(!hostname_conflict_at(orig_index, views, i as int)) by {
                    lemma_no_conflict_fresh(orig_index, views, i as int, id@);
                }
            }
            self.hostname_index.put(h.as_ref(), &id);
            proof {
                lemma_claim_step(orig_index, views, i as int, id@);
            }
            i = i + 1;
        }
        proof {
            assert(views.take(n as int) =~= views);
        }
        let ghost committed = server@;
        self.active_servers.put(&id, server);
        proof {
            lemma_insert_wf(orig_servers, orig_index, id@, committed);
        }
        Ok(())
    }

    /// Deregister a server: its primary entry and every one of its
    /// index entries go together.
    pub fn remove(&mut self, id: &ServerId) -> (r: Option<ActiveServer>)
        requires
            registry_wf(old(self)@),
        ensures
            registry_wf(final(self)@),
            match r {
                Some(srv) => {
                    &&& old(self)@.servers.contains_key(id@)
                    &&& srv@ == old(self)@.servers[id@]
                    &&& final(self)@.servers == old(self)@.servers.remove(id@)
                    &&& final(self)@.index == old(self)@.index.remove_keys(
                        srv@.hostnames.to_set(),
                    )
                },
                None => {
                    &&& !old(self)@.servers.contains_key(id@)
                    &&& final(self)@.servers == old(self)@.servers
                    &&& final(self)@.index == old(self)@.index
                },
            },
    {
        let ghost orig_index = hostname_table_contents(old(self).hostname_index);
        let ghost orig_servers = server_table_contents(old(self).active_servers);
        let server = match self.active_servers.take_out(id) {
            None => {
                return None;
            },
            Some(server) => server,
        };
        let ghost views = server@.hostnames;
        let n = server.hostnames.len();
        let mut i: usize = 0;
        proof {
            assert(views.take(0) =~= Seq::<Seq<char>>::empty());
            assert(orig_index.remove_keys(views.take(0).to_set()) =~= orig_index);
        }
        while i < n
            invariant
                0 <= i <= n,
                n == server.hostnames@.len(),
                views == hostname_views(server.hostnames@),
                views == server@.hostnames,
                registry_maps_wf(orig_servers, orig_index),
                orig_servers == old(self)@.servers,
                orig_index == old(self)@.index,
                orig_servers.contains_key(id@),
                server@ == orig_servers[id@],
                server_table_contents(self.active_servers) == orig_servers.remove(id@),
                hostname_table_contents(self.hostname_index) == orig_index.remove_keys(
                    views.take(i as int).to_set(),
                ),
            decreases n - i,
        {
            let h: &Hostname = &server.hostnames[i];
            assert(h@ == views[i as int]);
            self.hostname_index.delete(h.as_ref());
            proof {
                lemma_take_to_set_step(views, i as int);
                assert(orig_index.remove_keys(views.take(i as int).to_set()).remove(
                    views[i as int],
                ) =~= orig_index.remove_keys(views.take(i as int + 1).to_set()));
            }
            i = i + 1;
        }
        proof {
            assert(views.take(n as int) =~= views);
            lemma_remove_wf(orig_servers, orig_index, id@, server@);
        }
        Some(server)
    }
}

/// A conflict holds at `i` when the hostname is found in the current
/// index, which carries the original entries plus those already
/// claimed.
proof fn lemma_claimed_conflict(
    orig: Map<Seq<char>, Seq<u8>>,
    views: Seq<Seq<char>>,
    i: int,
    sid: Seq<u8>,
)
    requires
        0 <= i < views.len(),
        orig.union_prefer_right(index_additions(views.take(i), sid)).contains_key(views[i]),
    ensures
        hostname_conflict_at(orig, views, i),
{
    let adds = index_additions(views.take(i), sid);
    if adds.contains_key(views[i]) {
        assert(views.take(i).contains(views[i]));
        let j = choose|j: int| 0 <= j < i && #[trigger] views.take(i)[j] == views[i];
        assert(views[j] == views[i]);
    }
}

/// Without a conflict at `i`, the hostname is absent from the current
/// index.
proof fn lemma_no_conflict_fresh(
    orig: Map<Seq<char>, Seq<u8>>,
    views: Seq<Seq<char>>,
    i: int,
    sid: Seq<u8>,
)
    requires
        0 <= i < views.len(),
        !orig.union_prefer_right(index_additions(views.take(i), sid)).contains_key(views[i]),
    ensures
        !hostname_conflict_at(orig, views, i),
{
    assert(!orig.contains_key(views[i]));
    assert forall|j: int| 0 <= j < i implies views[j] != views[i] by {
        if views[j] == views[i] {
            assert(views.take(i)[j] == views[j]);
            assert(views.take(i).contains(views[i]));
            assert(index_additions(views.take(i), sid).contains_key(views[i]));
        }
    }
}

/// Claiming one more hostname extends the additions by one key.
proof fn lemma_claim_step(
    orig: Map<Seq<char>, Seq<u8>>,
    views: Seq<Seq<char>>,
    i: int,
    sid: Seq<u8>,
)
    requires
        0 <= i < views.len(),
    ensures
        orig.union_prefer_right(index_additions(views.take(i), sid)).insert(views[i], sid)
            =~= orig.union_prefer_right(index_additions(views.take(i + 1), sid)),
{
    let lhs = orig.union_prefer_right(index_additions(views.take(i), sid)).insert(views[i], sid);
    let rhs = orig.union_prefer_right(index_additions(views.take(i + 1), sid));
    assert forall|h: Seq<char>| #![auto] lhs.contains_key(h) <==> rhs.contains_key(h) by {
        if h == views[i] {
            assert(views.take(i + 1)[i] == views[i]);
            assert(views.take(i + 1).contains(h));
        } else {
            assert(views.take(i).contains(h) <==> views.take(i + 1).contains(h)) by {
                if views.take(i).contains(h) {
                    let j = choose|j: int| 0 <= j < i && #[trigger] views.take(i)[j] == h;
                    assert(views.take(i + 1)[j] == h);
                }
                if views.take(i + 1).contains(h) {
                    let j = choose|j: int| 0 <= j < i + 1 && #[trigger] views.take(i + 1)[j] == h;
                    assert(j != i);
                    assert(views.take(i)[j] == h);
                }
            }
        }
    }
    assert forall|h: Seq<char>| #[trigger]
        lhs.contains_key(h) && rhs.contains_key(h) implies lhs[h] == rhs[h] by {
        if h == views[i] {
            assert(views.take(i + 1)[i] == views[i]);
            assert(views.take(i + 1).contains(h));
            assert(rhs[h] == sid);
        } else {
            if views.take(i + 1).contains(h) {
                let j = choose|j: int| 0 <= j < i + 1 && #[trigger] views.take(i + 1)[j] == h;
                assert(j != i);
                assert(views.take(i)[j] == h);
                assert(views.take(i).contains(h));
            }
        }
    }
    assert(lhs =~= rhs);
}

/// Rolling one claim back shrinks the additions by exactly that key,
/// provided the earlier claims were genuine (no conflicts among them).
proof fn lemma_rollback_step(
    orig: Map<Seq<char>, Seq<u8>>,
    views: Seq<Seq<char>>,
    j: int,
    i: int,
    sid: Seq<u8>,
)
    requires
        0 <= j < i <= views.len(),
        forall|k: int| 0 <= k < i ==> !hostname_conflict_at(orig, views, k),
    ensures
        orig.union_prefer_right(index_additions(views.subrange(j, i), sid)).remove(views[j])
            =~= orig.union_prefer_right(index_additions(views.subrange(j + 1, i), sid)),
{
    let lhs = orig.union_prefer_right(index_additions(views.subrange(j, i), sid)).remove(views[j]);
    let rhs = orig.union_prefer_right(index_additions(views.subrange(j + 1, i), sid));
    assert(!hostname_conflict_at(orig, views, j));
    assert(!orig.contains_key(views[j]));
    assert forall|h: Seq<char>| #![auto] lhs.contains_key(h) <==> rhs.contains_key(h) by {
        if h == views[j] {
            // absent on the left by the removal; absent on the right
            // because a later duplicate of views[j] would be a conflict
            if views.subrange(j + 1, i).contains(h) {
                let t = choose|t: int|
                    0 <= t < i - j - 1 && #[trigger] views.subrange(j + 1, i)[t] == h;
                assert(views[j + 1 + t] == views[j]);
                assert(hostname_conflict_at(orig, views, j + 1 + t));
            }
        } else {
            assert(views.subrange(j, i).contains(h) <==> views.subrange(j + 1, i).contains(h))
                by {
                if views.subrange(j, i).contains(h) {
                    let t = choose|t: int| 0 <= t < i - j && #[trigger] views.subrange(j, i)[t] == h;
                    assert(t != 0);
                    assert(views.subrange(j + 1, i)[t - 1] == h);
                }
                if views.subrange(j + 1, i).contains(h) {
                    let t = choose|t: int|
                        0 <= t < i - j - 1 && #[trigger] views.subrange(j + 1, i)[t] == h;
                    assert(views.subrange(j, i)[t + 1] == h);
                }
            }
        }
    }
    assert forall|h: Seq<char>| #[trigger]
        lhs.contains_key(h) && rhs.contains_key(h) implies lhs[h] == rhs[h] by {
        if views.subrange(j + 1, i).contains(h) {
            let t = choose|t: int| 0 <= t < i - j - 1 && #[trigger] views.subrange(j + 1, i)[t] == h;
            assert(views.subrange(j, i)[t + 1] == h);
            assert(views.subrange(j, i).contains(h));
        } else {
            if views.subrange(j, i).contains(h) {
                let t = choose|t: int| 0 <= t < i - j && #[trigger] views.subrange(j, i)[t] == h;
                if t == 0 {
                    assert(h == views[j]);
                    assert(!lhs.contains_key(h));
                } else {
                    assert(views.subrange(j + 1, i)[t - 1] == h);
                }
            }
        }
    }
    assert(lhs =~= rhs);
}

/// A committed insertion preserves the registry invariants.
proof fn lemma_insert_wf(
    servers: Map<Seq<u8>, SpecActiveServer>,
    index: Map<Seq<char>, Seq<u8>>,
    sid: Seq<u8>,
    server: SpecActiveServer,
)
    requires
        registry_maps_wf(servers, index),
        !servers.contains_key(sid),
        forall|k: int|
            0 <= k < server.hostnames.len() ==> !hostname_conflict_at(index, server.hostnames, k),
    ensures
        registry_maps_wf(
            servers.insert(sid, server),
            index.union_prefer_right(index_additions(server.hostnames, sid)),
        ),
{
    let servers2 = servers.insert(sid, server);
    let adds = index_additions(server.hostnames, sid);
    let index2 = index.union_prefer_right(adds);
    assert forall|h: Seq<char>| #[trigger] index2.contains_key(h) implies {
        &&& servers2.contains_key(index2[h])
        &&& servers2[index2[h]].hostnames.contains(h)
    } by {
        if adds.contains_key(h) {
            assert(index2[h] == sid);
            assert(server.hostnames.contains(h));
        } else {
            assert(index.contains_key(h));
            assert(index2[h] == index[h]);
            assert(servers.contains_key(index[h]));
            assert(index[h] != sid);
            assert(servers.contains_key(index2[h]));
            assert(servers[index[h]].hostnames.contains(h));
            assert(servers2[index2[h]] == servers[index[h]]);
        }
    }
    assert forall|s: Seq<u8>, k: int|
        servers2.contains_key(s) && 0 <= k < servers2[s].hostnames.len() implies {
        &&& index2.contains_key(#[trigger] servers2[s].hostnames[k])
        &&& index2[servers2[s].hostnames[k]] == s
    } by {
        let h = servers2[s].hostnames[k];
        if s == sid {
            assert(server.hostnames.contains(h));
            assert(adds.contains_key(h));
            assert(index2.contains_key(h));
            assert(index2[h] == sid);
        } else {
            assert(servers.contains_key(s));
            assert(servers2[s] == servers[s]);
            assert(index.contains_key(h));
            assert(index[h] == s);
            // the hostname cannot be among the additions: it is bound
            // in the original index, which a genuine claim excludes
            if adds.contains_key(h) {
                let t = choose|t: int|
                    0 <= t < server.hostnames.len() && #[trigger] server.hostnames[t] == h;
                assert(hostname_conflict_at(index, server.hostnames, t));
            }
            assert(index2.contains_key(h));
            assert(index2[h] == index[h]);
        }
    }
}

/// A removal that deletes exactly the server's own hostnames preserves
/// the registry invariants.
proof fn lemma_remove_wf(
    servers: Map<Seq<u8>, SpecActiveServer>,
    index: Map<Seq<char>, Seq<u8>>,
    sid: Seq<u8>,
    server: SpecActiveServer,
)
    requires
        registry_maps_wf(servers, index),
        servers.contains_key(sid),
        server == servers[sid],
    ensures
        registry_maps_wf(
            servers.remove(sid),
            index.remove_keys(server.hostnames.to_set()),
        ),
{
    let servers2 = servers.remove(sid);
    let index2 = index.remove_keys(server.hostnames.to_set());
    assert forall|h: Seq<char>| #[trigger] index2.contains_key(h) implies {
        &&& servers2.contains_key(index2[h])
        &&& servers2[index2[h]].hostnames.contains(h)
    } by {
        assert(index.contains_key(h));
        assert(!server.hostnames.to_set().contains(h));
        assert(!server.hostnames.contains(h));
        assert(index2[h] == index[h]);
        assert(servers.contains_key(index[h]));
        assert(servers[index[h]].hostnames.contains(h));
        assert(index[h] != sid);
        assert(servers2.contains_key(index[h]));
        assert(servers2[index[h]] == servers[index[h]]);
    }
    assert forall|s: Seq<u8>, k: int|
        servers2.contains_key(s) && 0 <= k < servers2[s].hostnames.len() implies {
        &&& index2.contains_key(#[trigger] servers2[s].hostnames[k])
        &&& index2[servers2[s].hostnames[k]] == s
    } by {
        let h = servers2[s].hostnames[k];
        assert(s != sid);
        assert(servers2[s] == servers[s]);
        assert(servers.contains_key(s));
        assert(index.contains_key(h));
        assert(index[h] == s);
        // h cannot be one of the removed server's hostnames: its index
        // entry points at s, while theirs point at sid
        if server.hostnames.contains(h) {
            let t = choose|t: int| 0 <= t < server.hostnames.len() && #[trigger] server.hostnames[t] == h;
            assert(servers[sid].hostnames[t] == h);
            assert(index[h] == sid);
        }
        assert(!server.hostnames.to_set().contains(h));
        assert(index2.contains_key(h));
        assert(index2[h] == index[h]);
    }
}


/// Taking one more element adds exactly it to the taken set.
proof fn lemma_take_to_set_step(views: Seq<Seq<char>>, i: int)
    requires
        0 <= i < views.len(),
    ensures
        views.take(i + 1).to_set() =~= views.take(i).to_set().insert(views[i]),
{
    let a = views.take(i + 1).to_set();
    let b = views.take(i).to_set().insert(views[i]);
    assert forall|x: Seq<char>| #![auto] a.contains(x) <==> b.contains(x) by {
        if a.contains(x) {
            assert(views.take(i + 1).contains(x));
            let t = choose|t: int| 0 <= t < i + 1 && #[trigger] views.take(i + 1)[t] == x;
            if t < i {
                assert(views.take(i)[t] == x);
                assert(views.take(i).contains(x));
            } else {
                assert(x == views[i]);
            }
        }
        if b.contains(x) {
            if x == views[i] {
                assert(views.take(i + 1)[i] == x);
                assert(views.take(i + 1).contains(x));
            } else {
                assert(views.take(i).contains(x));
                let t = choose|t: int| 0 <= t < i && #[trigger] views.take(i)[t] == x;
                assert(views.take(i + 1)[t] == x);
                assert(views.take(i + 1).contains(x));
            }
        }
    }
}


/// No stored hostname ever dangles: in any well-formed registry state,
/// however it was reached, every hostname of every registered server
/// resolves through the index back to exactly that server, and every
/// index entry points at a server that is present.
pub proof fn lemma_no_dangling_hostnames(r: SpecRegistry, sid: Seq<u8>, k: int)
    requires
        registry_wf(r),
        r.servers.contains_key(sid),
        0 <= k < r.servers[sid].hostnames.len(),
    ensures
        r.index.contains_key(r.servers[sid].hostnames[k]),
        r.index[r.servers[sid].hostnames[k]] == sid,
        r.servers.contains_key(r.index[r.servers[sid].hostnames[k]]),
{
    assert(r.index.contains_key(r.servers[sid].hostnames[k]) && r.index[r.servers[sid].hostnames[k]]
        == sid);
}

} // verus!
