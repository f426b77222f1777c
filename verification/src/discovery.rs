//! Translating workload lifecycle events into registry entries: the
//! labels a discovered container carries decide its hostname, port and
//! replica behavior.

use vstd::prelude::*;
use vstd::string::StringExecFns;

use crate::decimal::{parse_u16, parse_u16_spec};
use crate::model::Upstream;
use crate::registry::ActiveServer;
use crate::strutil::push_char;

verus! {

/// How several replicas sharing one base hostname are told apart.
#[derive(Debug, Clone, Copy, PartialEq, Eq, Structural)]
pub enum ReplicaBehavior {
    /// Prepend the replica ordinal as a subdomain: `<index>.<base>`.
    IndexSubdomain,
}

impl ReplicaBehavior {
    /// Parse the label value naming a replica behavior.
    pub fn parse(s: &str) -> (r: Option<ReplicaBehavior>)
        ensures
            r == spec_replica_behavior(s@),
    {
        proof {
            reveal_strlit("index-subdomain");
        }
        if string_eq_literal(s, "index-subdomain") {
            Some(ReplicaBehavior::IndexSubdomain)
        } else {
            None
        }
    }
}

/// The replica behavior a label value denotes.
pub open spec fn spec_replica_behavior(s: Seq<char>) -> Option<ReplicaBehavior> {
    if s == "index-subdomain"@ {
        Some(ReplicaBehavior::IndexSubdomain)
    } else {
        None
    }
}

/// Byte-exact string comparison.
fn string_eq_literal(a: &str, b: &str) -> (r: bool)
    ensures
        r == (a@ == b@),
{
    let xs = String::from_str(a);
    let ys = String::from_str(b);
    xs == ys
}

/// First-match lookup among a container's labels.
pub open spec fn label_lookup(
    labels: Seq<(Seq<char>, Seq<char>)>,
    key: Seq<char>,
) -> Option<Seq<char>>
    decreases labels.len(),
{
    if labels.len() == 0 {
        None
    } else if labels[0].0 == key {
        Some(labels[0].1)
    } else {
        label_lookup(labels.drop_first(), key)
    }
}

/// The views of a label list.
pub open spec fn label_views(labels: Seq<(String, String)>) -> Seq<(Seq<char>, Seq<char>)> {
    labels.map_values(|l: (String, String)| (l.0@, l.1@))
}

/// Look one label up by key.
pub fn extract_label(labels: &Vec<(String, String)>, key: &str) -> (r: Option<String>)
    ensures
        match r {
            Some(v) => label_lookup(label_views(labels@), key@) == Some(v@),
            None => label_lookup(label_views(labels@), key@) is None,
        },
{
    let ghost views = label_views(labels@);
    let n = labels.len();
    let mut i: usize = 0;
    proof {
        assert(views.skip(0) =~= views);
    }
    while i < n
        invariant
            0 <= i <= n,
            n == labels@.len(),
            views == label_views(labels@),
            views.len() == n,
            label_lookup(views, key@) == label_lookup(views.skip(i as int), key@),
        decreases n - i,
    {
        proof {
            assert(views[i as int] == (labels@[i as int].0@, labels@[i as int].1@));
            assert(views.skip(i as int)[0] == views[i as int]);
            assert(views.skip(i as int).drop_first() =~= views.skip(i as int + 1));
        }
        let entry = &labels[i];
        if string_eq_literal(entry.0.as_str(), key) {
            return Some(entry.1.clone());
        }
        i = i + 1;
    }
    proof {
        assert(views.skip(n as int).len() == 0);
    }
    None
}

/// What a container's labels and address translate to, if they carry
/// the marker label at all: the effective hostname (with the replica
/// ordinal prepended when asked for), and the port, 25565 unless a
/// valid port label overrides it.
pub open spec fn gathered_server(ip: Seq<char>, labels: Seq<(Seq<char>, Seq<char>)>) -> Option<
    (Seq<char>, u16),
> {
    match label_lookup(labels, "mcproxy"@) {
        None => None,
        Some(base) => {
            let behavior = label_lookup(labels, "mcproxy.replica_behavior"@);
            let replica = label_lookup(labels, "com.docker.compose.container-number"@);
            let hostname = if behavior matches Some(b) && spec_replica_behavior(b) is Some
                && replica matches Some(r) {
                replica->0 + seq!['.'] + base
            } else {
                base
            };
            let port = match label_lookup(labels, "mcproxy.port"@) {
                Some(p) => match parse_u16_spec(p) {
                    Some(v) => v,
                    None => 25565,
                },
                None => 25565,
            };
            Some((hostname, port))
        },
    }
}

/// Build the server a started workload registers: its one hostname and
/// the upstream at the workload's address.
pub fn gather_server_information(ip: &str, labels: &Vec<(String, String)>) -> (r: Option<
    ActiveServer,
>)
    ensures
        match r {
            Some(server) => {
                &&& gathered_server(ip@, label_views(labels@)) matches Some((hostname, port))
                    && server@.hostnames == seq![hostname] && server@.upstream.host == ip@
                    && server@.upstream.port == port
            },
            None => gathered_server(ip@, label_views(labels@)) is None,
        },
{
    proof {
        reveal_strlit("mcproxy");
        reveal_strlit("mcproxy.replica_behavior");
        reveal_strlit("com.docker.compose.container-number");
        reveal_strlit("mcproxy.port");
    }
    let base = match extract_label(labels, "mcproxy") {
        None => {
            return None;
        },
        Some(b) => b,
    };
    let behavior = match extract_label(labels, "mcproxy.replica_behavior") {
        Some(v) => ReplicaBehavior::parse(v.as_str()),
        None => None,
    };
    let replica = extract_label(labels, "com.docker.compose.container-number");
    let hostname: String = match (behavior, replica) {
        (Some(ReplicaBehavior::IndexSubdomain), Some(r)) => {
            let mut s = r;
            push_char(&mut s, '.');
            s.append(base.as_str());
            s
        },
        _ => base,
    };
    let port: u16 = match extract_label(labels, "mcproxy.port") {
        Some(p) => match parse_u16(p.as_str()) {
            Some(v) => v,
            None => 25565,
        },
        None => 25565,
    };
    let mut hostnames: Vec<crate::model::Hostname> = Vec::new();
    hostnames.push(crate::model::Hostname::new(hostname));
    let server = ActiveServer {
        hostnames,
        upstream: Upstream { host: String::from_str(ip), port },
    };
    proof {
        let g = gathered_server(ip@, label_views(labels@));
        let pair = g->0;
        assert(server@.hostnames =~= seq![pair.0]);
    }
    Some(server)
}

} // verus!
