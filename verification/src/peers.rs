//! Peer scanning: picking the publicly reachable addresses out of a node's
//! reported peer list.  Fetching the peer list is the caller's concern.

use vstd::prelude::*;
use vstd::string::StrSliceExecFns;
use vstd::string::StringExecFns;

verus! {

/// One peer as the node reports it: its identity, listen address, and the
/// RPC address it advertises.
#[derive(Debug)]
pub struct PeerInfo {
    pub id: String,
    pub listen_addr: String,
    pub rpc_address: String,
}

/// Whether `p` starts with `prefix`.
pub open spec fn has_prefix(s: Seq<char>, prefix: Seq<char>) -> bool {
    prefix.len() <= s.len() && s.subrange(0, prefix.len() as int) == prefix
}

/// Check a prefix.
pub fn starts_with(s: &str, prefix: &str) -> (r: bool)
    ensures
        r == has_prefix(s@, prefix@),
{
    let n = prefix.unicode_len();
    let total = s.unicode_len();
    if n > total {
        return false;
    }
    let mut i: usize = 0;
    while i < n
        invariant
            n <= total,
            n == prefix@.len(),
            total == s@.len(),
            i <= n,
            forall|j: int| 0 <= j < i ==> s@[j] == prefix@[j],
        decreases n - i,
    {
        if s.get_char(i) != prefix.get_char(i) {
            assert(s@.subrange(0, n as int)[i as int] != prefix@[i as int]);
            return false;
        }
        i = i + 1;
    }
    proof {
        assert(s@.subrange(0, n as int) =~= prefix@);
    }
    true
}

/// An address that is loopback, unroutable or in a private range: not
/// worth reporting as open.
pub open spec fn is_private_addr(s: Seq<char>) -> bool {
    ||| has_prefix(s, "tcp://127.0.0.1"@)
    ||| has_prefix(s, "tcp://0.0.0.0"@)
    ||| has_prefix(s, "tcp://10."@)
    ||| has_prefix(s, "tcp://192.168."@)
    ||| has_prefix(s, "tcp://172.16."@)
}

/// Check for a private or unroutable address.
pub fn private_addr(s: &str) -> (r: bool)
    ensures
        r == is_private_addr(s@),
{
    starts_with(s, "tcp://127.0.0.1") || starts_with(s, "tcp://0.0.0.0") || starts_with(
        s,
        "tcp://10.",
    ) || starts_with(s, "tcp://192.168.") || starts_with(s, "tcp://172.16.")
}

/// The RPC addresses of the first `i` peers that advertise a public one.
pub open spec fn open_rpc_upto(peers: Seq<PeerInfo>, i: int) -> Seq<Seq<char>>
    decreases i,
{
    if i <= 0 {
        Seq::empty()
    } else {
        open_rpc_upto(peers, i - 1) + (if is_private_addr(peers[i - 1].rpc_address@) {
            Seq::empty()
        } else {
            seq![peers[i - 1].rpc_address@]
        })
    }
}

/// The dial strings (`id@address`) of the first `i` peers whose listen
/// address is public.
pub open spec fn open_peers_upto(peers: Seq<PeerInfo>, i: int) -> Seq<Seq<char>>
    decreases i,
{
    if i <= 0 {
        Seq::empty()
    } else {
        open_peers_upto(peers, i - 1) + (if is_private_addr(peers[i - 1].listen_addr@) {
            Seq::empty()
        } else {
            seq![peers[i - 1].id@ + "@"@ + strip_tcp(peers[i - 1].listen_addr@)]
        })
    }
}

/// The address without its `tcp://` scheme, when it has one.
pub open spec fn strip_tcp(s: Seq<char>) -> Seq<char> {
    if has_prefix(s, "tcp://"@) {
        s.skip("tcp://"@.len() as int)
    } else {
        s
    }
}

/// Scan a peer list: the publicly advertised RPC addresses, and the dial
/// strings of the publicly listening peers.
pub fn run_task(peers: &Vec<PeerInfo>) -> (r: (Vec<String>, Vec<String>))
    ensures
        r.0@.map_values(|s: String| s@) == open_rpc_upto(peers@, peers@.len() as int),
        r.1@.map_values(|s: String| s@) == open_peers_upto(peers@, peers@.len() as int),
{
    let mut open_rpc: Vec<String> = Vec::new();
    let mut open_peer: Vec<String> = Vec::new();
    let mut i: usize = 0;
    while i < peers.len()
        invariant
            i <= peers@.len(),
            open_rpc@.map_values(|s: String| s@) =~= open_rpc_upto(peers@, i as int),
            open_peer@.map_values(|s: String| s@) =~= open_peers_upto(peers@, i as int),
        decreases peers@.len() - i,
    {
        let p = &peers[i];
        if !private_addr(p.rpc_address.as_str()) {
            open_rpc.push(p.rpc_address.clone());
        }
        proof {
            assert(open_rpc@.map_values(|s: String| s@) =~= open_rpc_upto(peers@, i as int + 1));
        }
        if !private_addr(p.listen_addr.as_str()) {
            let tail = if starts_with(p.listen_addr.as_str(), "tcp://") {
                let total = p.listen_addr.as_str().unicode_len();
                let n = "tcp://".unicode_len();
                p.listen_addr.as_str().substring_char(n, total).to_owned()
            } else {
                p.listen_addr.clone()
            };
            let dial = p.id.clone().concat("@").concat(tail.as_str());
            proof {
                assert(dial@ == p.id@ + "@"@ + strip_tcp(p.listen_addr@));
            }
            open_peer.push(dial);
        }
        proof {
            assert(open_peer@.map_values(|s: String| s@) =~= open_peers_upto(peers@, i as int + 1));
        }
        i = i + 1;
    }
    (open_rpc, open_peer)
}

} // verus!
