//! Direct tunnels: what is offered to reach a peer, and how attempts end.
use crate::kube_rpc::DirectChannelConfig;
use crate::net::SocketAddress;
use crate::text::same;
use crate::tunnel_error::{IoCause, IoError, IoKind, TunnelError};
use vstd::prelude::*;

verus! {

/// How a candidate is connected to.
#[derive(Debug, Clone, Copy, PartialEq, Eq, Structural)]
pub enum DirectTransport {
    Quic,
    Tcp,
}

/// Where a candidate comes from.
#[derive(Debug, Clone, Copy, PartialEq, Eq, Structural)]
pub enum DirectCandidateKind {
    Public,
    Private,
    Relay,
}

/// An address at which a peer may be reached. Those with lower numbers are
/// tried first.
#[derive(Debug)]
pub struct DirectCandidate {
    pub host: String,
    pub port: u16,
    pub transport: DirectTransport,
    pub kind: DirectCandidateKind,
    pub priority: u32,
}

/// The candidates of a peer.
#[derive(Debug)]
pub struct DirectCandidateSet {
    pub candidates: Vec<DirectCandidate>,
    pub generation: Option<u64>,
    pub server_certificate: Option<Vec<u8>>,
}

/// The priority of the next candidate.
pub fn next_priority(counter: &mut u32) -> (r: u32)
    ensures
        r == *old(counter),
        *final(counter) == (if r == u32::MAX {
            u32::MAX
        } else {
            (r + 1) as u32
        }),
{
    let value: u32 = *counter;
    *counter = value.saturating_add(1);
    value
}

/// Some candidate has the host and the port.
pub open spec fn offers(candidates: Seq<DirectCandidate>, host: Seq<char>, port: u16) -> bool {
    exists|i: int|
        0 <= i < candidates.len() && (#[trigger] candidates[i]).host@ == host && candidates[i].port
            == port
}

pub fn candidate_exists(candidates: &Vec<DirectCandidate>, host: &str, port: u16) -> (r: bool)
    ensures
        r == offers(candidates@, host@, port),
{
    let mut i: usize = 0;
    while i < candidates.len()
        invariant
            i <= candidates@.len(),
            forall|k: int|
                0 <= k < i ==> !((#[trigger] candidates@[k]).host@ == host@ && candidates@[k].port
                    == port),
        decreases candidates@.len() - i,
    {
        if same(candidates[i].host.as_str(), host) && candidates[i].port == port {
            return true;
        }
        i = i + 1;
    }
    false
}

/// Collects the candidates of this side: the address that a STUN server saw,
/// if one did.
pub fn collect_candidates(observed: Option<(String, u16)>, generation: u64) -> (r:
    DirectCandidateSet)
    ensures
        r.generation == Some(generation),
        r.server_certificate is None,
        match observed {
            None => r.candidates@.len() == 0,
            Some((host, port)) => {
                &&& r.candidates@.len() == 1
                &&& r.candidates@[0].host == host
                &&& r.candidates@[0].port == port
                &&& r.candidates@[0].transport == DirectTransport::Quic
                &&& r.candidates@[0].kind == DirectCandidateKind::Public
                &&& r.candidates@[0].priority == 0
            },
        },
{
    let mut counter: u32 = 0;
    let mut candidates: Vec<DirectCandidate> = Vec::new();
    if let Some((host, port)) = observed {
        if !candidate_exists(&candidates, host.as_str(), port) {
            let priority: u32 = next_priority(&mut counter);
            candidates.push(
                DirectCandidate {
                    host,
                    port,
                    transport: DirectTransport::Quic,
                    kind: DirectCandidateKind::Public,
                    priority,
                },
            );
        }
    }
    DirectCandidateSet { candidates, generation: Some(generation), server_certificate: None }
}

/// The indices of the candidates that are tried.
pub open spec fn quic_indices(candidates: Seq<DirectCandidate>) -> Seq<int>
    decreases candidates.len(),
{
    if candidates.len() == 0 {
        seq![]
    } else {
        let earlier = quic_indices(candidates.drop_last());
        if candidates.last().transport == DirectTransport::Quic {
            earlier.push(candidates.len() - 1)
        } else {
            earlier
        }
    }
}

/// The candidates that are tried, in order: those that speak QUIC.
pub fn quic_candidates(candidates: &Vec<DirectCandidate>) -> (r: Vec<usize>)
    ensures
        r@.map_values(|i: usize| i as int) == quic_indices(candidates@),
{
    let mut out: Vec<usize> = Vec::new();
    let mut i: usize = 0;
    proof {
        assert(candidates@.take(0) =~= Seq::<DirectCandidate>::empty());
        assert(out@.map_values(|i: usize| i as int) =~= Seq::<int>::empty());
    }
    while i < candidates.len()
        invariant
            i <= candidates@.len(),
            out@.map_values(|i: usize| i as int) == quic_indices(candidates@.take(i as int)),
        decreases candidates@.len() - i,
    {
        proof {
            assert(candidates@.take(i as int + 1).drop_last() =~= candidates@.take(i as int));
        }
        let ghost before = out@;
        if let DirectTransport::Quic = candidates[i].transport {
            out.push(i);
            proof {
                assert(out@.map_values(|i: usize| i as int) =~= before.map_values(
                    |i: usize| i as int,
                ).push(i as int));
            }
        }
        i = i + 1;
    }
    proof {
        assert(candidates@.take(candidates@.len() as int) =~= candidates@);
    }
    out
}

/// The error of an attempt in which no candidate could be reached: that of
/// the last one, if any was tried.
pub fn direct_failure(last: Option<TunnelError>) -> (r: TunnelError)
    ensures
        match last {
            Some(e) => r == e,
            None => r matches TunnelError::Remote(m) && m@ == "no QUIC candidates available"@,
        },
{
    match last {
        Some(e) => e,
        None => TunnelError::Remote("no QUIC candidates available".to_owned()),
    }
}

/// What is needed to connect to a peer directly: its certificate and the
/// address at which it was seen.
pub fn direct_target(config: &DirectChannelConfig) -> (r: Result<(Vec<u8>, SocketAddress), TunnelError>)
    ensures
        match r {
            Ok((certificate, address)) => {
                &&& config.server_certificate matches Some(c) && certificate@ == c@
                &&& config.stun_observed_addr == Some(address)
            },
            Err(e) => if config.server_certificate is None {
                e matches TunnelError::Remote(m) && m@ == "direct server certificate missing"@
            } else {
                &&& config.stun_observed_addr is None
                &&& e matches TunnelError::Remote(m) && m@
                    == "direct server STUN address unavailable"@
            },
        },
{
    let certificate: Vec<u8> = match &config.server_certificate {
        Some(c) => {
            let copy: Vec<u8> = c.clone();
            proof {
                assert(copy@ =~= c@);
            }
            copy
        },
        None => {
            return Err(TunnelError::Remote("direct server certificate missing".to_owned()));
        },
    };
    match config.stun_observed_addr {
        Some(address) => Ok((certificate, address)),
        None => Err(TunnelError::Remote("direct server STUN address unavailable".to_owned())),
    }
}

/// The error of an attempt that took too long.
pub fn direct_timeout() -> (r: TunnelError)
    ensures
        r matches TunnelError::Transport(e) && e.kind == IoKind::TimedOut && e.text@
            == "direct tunnel attempt exceeded 5s"@ && e.cause is Plain,
{
    TunnelError::Transport(
        IoError {
            kind: IoKind::TimedOut,
            text: "direct tunnel attempt exceeded 5s".to_owned(),
            cause: IoCause::Plain,
        },
    )
}

// ---------------------------------------------------------------------------
// Laws
// ---------------------------------------------------------------------------

/// Candidates are numbered upwards: a later one never comes before an earlier
/// one.
pub proof fn law_priorities_go_up(
    counter: &mut u32,
    first: u32,
    next: &mut u32,
    second: u32,
)
    requires
        call_ensures(next_priority, (counter,), first),
        *old(next) == *final(counter),
        call_ensures(next_priority, (next,), second),
    ensures
        first == *old(counter),
        first < u32::MAX ==> second == first + 1,
        first == u32::MAX ==> second == first,
{
}

/// The address that was seen from outside is what is offered, and nothing else
/// is.
pub proof fn law_seen_address_is_offered(
    observed: Option<(String, u16)>,
    generation: u64,
    r: DirectCandidateSet,
)
    requires
        call_ensures(collect_candidates, (observed, generation), r),
    ensures
        r.candidates@.len() == (if observed is Some {
            1nat
        } else {
            0nat
        }),
        forall|i: int|
            0 <= i < r.candidates@.len() ==> (#[trigger] r.candidates@[i]).transport is Quic
                && r.candidates@[i].kind is Public && observed == Some(
                (r.candidates@[i].host, r.candidates@[i].port),
            ),
        r.generation == Some(generation),
        r.server_certificate is None,
{
}

proof fn lemma_quic_indices(candidates: Seq<DirectCandidate>, n: int)
    ensures
        quic_indices(candidates).contains(n) <==> 0 <= n < candidates.len()
            && candidates[n].transport is Quic,
        forall|a: int, b: int|
            0 <= a < b < quic_indices(candidates).len() ==> (#[trigger] quic_indices(candidates)[a])
                < (#[trigger] quic_indices(candidates)[b]),
        forall|a: int|
            0 <= a < quic_indices(candidates).len() ==> 0 <= #[trigger] quic_indices(candidates)[a]
                < candidates.len(),
    decreases candidates.len(),
{
    if candidates.len() > 0 {
        let shorter = candidates.drop_last();
        lemma_quic_indices(shorter, n);
        let earlier = quic_indices(shorter);
        let all = quic_indices(candidates);
        let last = candidates.len() - 1;
        assert(candidates[last] == candidates.last());
        if 0 <= n < last {
            assert(shorter[n] == candidates[n]);
        }
        if candidates.last().transport is Quic {
            assert(all == earlier.push(last));
            if earlier.contains(n) {
                let k = choose|k: int| 0 <= k < earlier.len() && earlier[k] == n;
                assert(all[k] == n);
            }
            if n == last {
                assert(all[earlier.len() as int] == n);
            }
            if all.contains(n) && n != last {
                let k = choose|k: int| 0 <= k < all.len() && all[k] == n;
                assert(earlier[k] == n);
            }
            assert forall|a: int, b: int| 0 <= a < b < all.len() implies (#[trigger] all[a]) < (
            #[trigger] all[b]) by {
                assert(all[a] == earlier[a]);
                if b < earlier.len() {
                    assert(all[b] == earlier[b]);
                }
            }
            assert forall|a: int| 0 <= a < all.len() implies 0 <= #[trigger] all[a]
                < candidates.len() by {
                if a < earlier.len() {
                    assert(all[a] == earlier[a]);
                }
            }
        }
    }
}

/// Just the candidates that speak QUIC are tried, each once, in their order.
pub proof fn law_quic_candidates_are_tried(
    candidates: Vec<DirectCandidate>,
    r: Vec<usize>,
    n: usize,
)
    requires
        call_ensures(quic_candidates, (&candidates,), r),
    ensures
        r@.contains(n) <==> n < candidates@.len() && candidates@[n as int].transport is Quic,
        forall|a: int, b: int| 0 <= a < b < r@.len() ==> (#[trigger] r@[a]) < (#[trigger] r@[b]),
{
    lemma_quic_indices(candidates@, n as int);
    let all = quic_indices(candidates@);
    let mapped = r@.map_values(|i: usize| i as int);
    assert(mapped == all);
    assert forall|k: int| 0 <= k < r@.len() implies #[trigger] r@[k] as int == all[k] by {
        assert(mapped[k] == r@[k] as int);
    }
    if r@.contains(n) {
        let k = choose|k: int| 0 <= k < r@.len() && r@[k] == n;
        assert(all[k] == n as int);
        assert(all.contains(n as int));
    }
    if all.contains(n as int) {
        let k = choose|k: int| 0 <= k < all.len() && all[k] == n as int;
        assert(r@[k] == n);
    }
    assert forall|a: int, b: int| 0 <= a < b < r@.len() implies (#[trigger] r@[a]) < (
    #[trigger] r@[b]) by {
        assert(all[a] < all[b]);
    }
}

/// A peer can be connected to directly just where its certificate and its
/// address are known, and it is these that are used.
pub proof fn law_direct_target_is_known(
    config: DirectChannelConfig,
    r: Result<(Vec<u8>, SocketAddress), TunnelError>,
)
    requires
        call_ensures(direct_target, (&config,), r),
    ensures
        r is Ok <==> config.server_certificate is Some && config.stun_observed_addr is Some,
        r matches Ok(t) ==> t.0@ == config.server_certificate->0@ && t.1
            == config.stun_observed_addr->0,
{
}

/// An attempt fails with the error of the last candidate that was tried.
pub proof fn law_last_failure_is_told(last: Option<TunnelError>, r: TunnelError)
    requires
        call_ensures(direct_failure, (last,), r),
    ensures
        last matches Some(e) ==> r == e,
        last is None ==> r is Remote,
{
}

} // verus!
