//! The host keys of the SSH proxy.
use crate::text::{concat3, same};
use vstd::prelude::*;

verus! {

/// How a host key signs.
#[derive(Debug, Clone, Copy, PartialEq, Eq, Structural)]
pub enum KeyAlgorithm {
    Ed25519,
    /// RSA with SHA-512.
    RsaSha512,
}

/// The algorithm of a kind of host key.
pub open spec fn algorithm_of(kind: Seq<char>) -> Option<KeyAlgorithm> {
    if kind == "host-ed25519"@ {
        Some(KeyAlgorithm::Ed25519)
    } else if kind == "host-rsa"@ {
        Some(KeyAlgorithm::RsaSha512)
    } else {
        None
    }
}

/// The algorithm with which a missing host key is made.
pub fn key_algorithm(kind: &str) -> (r: Result<KeyAlgorithm, String>)
    ensures
        match r {
            Ok(a) => algorithm_of(kind@) == Some(a),
            Err(m) => algorithm_of(kind@) is None && m@ == "don't support "@ + kind@
                + " host key"@,
        },
{
    if same(kind, "host-ed25519") {
        Ok(KeyAlgorithm::Ed25519)
    } else if same(kind, "host-rsa") {
        Ok(KeyAlgorithm::RsaSha512)
    } else {
        Err(concat3("don't support ", kind, " host key"))
    }
}

/// The kinds of host keys, in the order in which they are offered.
pub fn host_key_kinds() -> (r: Vec<&'static str>)
    ensures
        r@.len() == 2,
        r@[0]@ == "host-ed25519"@,
        r@[1]@ == "host-rsa"@,
{
    let mut out: Vec<&'static str> = Vec::new();
    out.push("host-ed25519");
    out.push("host-rsa");
    out
}

/// Every kind of host key that is offered can be made, each with an algorithm
/// of its own, and no other kind can.
pub proof fn law_offered_keys_can_be_made(
    kinds: Vec<&'static str>,
    i: int,
    j: int,
    a: Result<KeyAlgorithm, String>,
    b: Result<KeyAlgorithm, String>,
    kind: &str,
    c: Result<KeyAlgorithm, String>,
)
    requires
        call_ensures(host_key_kinds, (), kinds),
        0 <= i < j < kinds@.len(),
        call_ensures(key_algorithm, (kinds@[i],), a),
        call_ensures(key_algorithm, (kinds@[j],), b),
        call_ensures(key_algorithm, (kind,), c),
    ensures
        a matches Ok(KeyAlgorithm::Ed25519),
        b matches Ok(KeyAlgorithm::RsaSha512),
        c is Ok <==> kind@ == kinds@[0]@ || kind@ == kinds@[1]@,
{
    reveal_strlit("host-ed25519");
    reveal_strlit("host-rsa");
    assert("host-ed25519"@.len() != "host-rsa"@.len());
}

} // verus!
