//! The gateway for direct devbox tunnels: who may use it, and to reach what.
use crate::direct_handshake::{live, DirectCredentialStore};
use crate::ids::{id_text, new_token};
use crate::kube_rpc::DirectCredential;
use crate::text::{concat, concat3, decimal, ends_with, lower, to_lower};
use crate::text_map::TextMap;
use crate::tunnel_error::TunnelError;
use crate::tunnel_message::TunnelTarget;
use vstd::prelude::*;

verus! {

/// A user who was let into a namespace until a time, in nanoseconds since the
/// epoch.
#[derive(Debug)]
pub struct DirectSession {
    pub user_id: u128,
    pub environment_id: u128,
    pub namespace: String,
    pub expires_at: i64,
}

/// How long a session lasts: ten minutes.
pub const SESSION_NANOS: i64 = 600_000_000_000;

/// The sessions by token, and the tokens that the server accepts.
#[derive(Debug)]
pub struct DevboxDirectGateway {
    pub sessions: TextMap<DirectSession>,
    pub credentials: DirectCredentialStore,
}

/// The tokens of sessions that have ended at a time.
pub open spec fn is_expired(
    sessions: Map<Seq<char>, DirectSession>,
    token: Seq<char>,
    now: i64,
) -> bool {
    sessions.contains_key(token) && sessions[token].expires_at <= now
}

/// The sessions that go on at a time.
pub open spec fn unexpired(sessions: Map<Seq<char>, DirectSession>, now: i64) -> Map<
    Seq<char>,
    DirectSession,
> {
    sessions.restrict(Set::new(|t: Seq<char>| sessions.contains_key(t) && sessions[t].expires_at > now))
}

/// Some session is over at a time.
pub open spec fn any_expired(sessions: Map<Seq<char>, DirectSession>, now: i64) -> bool {
    exists|t: Seq<char>| #[trigger] is_expired(sessions, t, now)
}

/// The tokens that are left once those of the sessions that are over were
/// used up. Where there is such a session, tokens that have expired
/// themselves go too.
pub open spec fn credentials_left(
    credentials: Map<Seq<char>, i64>,
    sessions: Map<Seq<char>, DirectSession>,
    now: i64,
) -> Map<Seq<char>, i64> {
    if any_expired(sessions, now) {
        live(credentials, now).remove_keys(
            Set::new(|t: Seq<char>| is_expired(sessions, t, now)),
        )
    } else {
        credentials
    }
}

impl DevboxDirectGateway {
    pub fn new() -> (r: Self)
        ensures
            r.sessions@ == Map::<Seq<char>, DirectSession>::empty(),
            r.credentials@ == Map::<Seq<char>, i64>::empty(),
    {
        DevboxDirectGateway {
            sessions: TextMap::new(),
            credentials: DirectCredentialStore::new(),
        }
    }

    /// Lets a user into a namespace under a token, for ten minutes. Gives the
    /// time at which the session ends.
    pub fn open_session(
        &mut self,
        token: &str,
        user_id: u128,
        environment_id: u128,
        namespace: String,
        now: i64,
    ) -> (r: i64)
        requires
            now <= i64::MAX - SESSION_NANOS,
        ensures
            r == now + SESSION_NANOS,
            final(self).sessions@ == old(self).sessions@.insert(
                token@,
                DirectSession { user_id, environment_id, namespace, expires_at: r },
            ),
            final(self).credentials@ == live(old(self).credentials@.insert(token@, r), now),
    {
        let expires_at: i64 = now + SESSION_NANOS;
        self.credentials.insert(token.to_owned(), expires_at, now);
        self.sessions.insert(
            token.to_owned(),
            DirectSession { user_id, environment_id, namespace, expires_at },
        );
        expires_at
    }

    /// Lets a user into a namespace under a new token, for ten minutes.
    pub fn issue_config(
        &mut self,
        user_id: u128,
        environment_id: u128,
        namespace: String,
        now: i64,
    ) -> (r: DirectCredential)
        requires
            now <= i64::MAX - SESSION_NANOS,
        ensures
            exists|id: u128| r.token@ == #[trigger] id_text(id) && (id >> 76) & 15 == 4,
            r.expires_at == now + SESSION_NANOS,
            final(self).sessions@ == old(self).sessions@.insert(
                r.token@,
                DirectSession { user_id, environment_id, namespace, expires_at: r.expires_at },
            ),
            final(self).credentials@ == live(
                old(self).credentials@.insert(r.token@, r.expires_at),
                now,
            ),
    {
        let token: String = new_token();
        let expires_at: i64 = self.open_session(
            token.as_str(),
            user_id,
            environment_id,
            namespace,
            now,
        );
        DirectCredential { token, expires_at }
    }

    /// The session of a connection, by its token. Without one the token is
    /// used up and the connection is dropped.
    pub fn accept(&mut self, token: &str, now: i64) -> (r: Option<(u128, u128, String)>)
        ensures
            final(self).sessions == old(self).sessions,
            match r {
                Some((user_id, environment_id, namespace)) => {
                    &&& old(self).sessions@.contains_key(token@)
                    &&& user_id == old(self).sessions@[token@].user_id
                    &&& environment_id == old(self).sessions@[token@].environment_id
                    &&& namespace == old(self).sessions@[token@].namespace
                    &&& final(self).credentials == old(self).credentials
                },
                None => {
                    &&& !old(self).sessions@.contains_key(token@)
                    &&& final(self).credentials@ == live(old(self).credentials@, now).remove(token@)
                },
            },
    {
        match self.sessions.get(token) {
            Some(session) => Some(
                (session.user_id, session.environment_id, session.namespace.clone()),
            ),
            None => {
                self.credentials.remove(token, now, now);
                None
            },
        }
    }

    /// Ends the sessions whose time is over, and uses their tokens up.
    pub fn cleanup(&mut self, now: i64)
        ensures
            final(self).sessions@ == unexpired(old(self).sessions@, now),
            final(self).credentials@ == credentials_left(
                old(self).credentials@,
                old(self).sessions@,
                now,
            ),
    {
        let mut expired: Vec<String> = Vec::new();
        let ghost list = self.sessions.entry_seq();
        let ghost before = self.sessions@;
        let mut i: usize = 0;
        while i < self.sessions.len()
            invariant
                i <= list.len(),
                list == self.sessions.entry_seq(),
                before == self.sessions@,
                *self == *old(self),
                forall|k: int|
                    0 <= k < expired@.len() ==> is_expired(before, (#[trigger] expired@[k])@, now),
                forall|k: int|
                    0 <= k < i && is_expired(before, (#[trigger] list[k]).0@, now) ==> exists|j: int|
                        0 <= j < expired@.len() && (#[trigger] expired@[j])@ == list[k].0@,
            decreases list.len() - i,
        {
            proof {
                self.sessions.lemma_entries();
            }
            let (token, _session) = self.sessions.entry(i);
            let over: bool = match self.sessions.get(token) {
                Some(session) => session.expires_at <= now,
                None => false,
            };
            let ghost current = expired@;
            if over {
                expired.push(token.to_owned());
                proof {
                    assert(expired@[current.len() as int]@ == list[i as int].0@);
                }
            }
            proof {
                assert forall|k: int|
                    0 <= k < i + 1 && is_expired(before, (#[trigger] list[k]).0@, now) implies exists|
                    j: int,
                |
                    0 <= j < expired@.len() && (#[trigger] expired@[j])@ == list[k].0@ by {
                    if k < i {
                        let j = choose|j: int|
                            0 <= j < current.len() && (#[trigger] current[j])@ == list[k].0@;
                        assert(expired@[j]@ == list[k].0@);
                    }
                }
            }
            i = i + 1;
        }
        proof {
            self.sessions.lemma_entries();
            assert forall|t: Seq<char>| is_expired(before, t, now) implies exists|j: int|
                0 <= j < expired@.len() && (#[trigger] expired@[j])@ == t by {
                let k = choose|k: int|
                    0 <= k < list.len() && (#[trigger] list[k]).0@ == t && before[t] == list[k].1;
                assert(is_expired(before, list[k].0@, now));
            }
        }
        let ghost good = self.credentials@;
        let mut j: usize = 0;
        while j < expired.len()
            invariant
                j <= expired@.len(),
                before == old(self).sessions@,
                forall|k: int|
                    0 <= k < expired@.len() ==> is_expired(before, (#[trigger] expired@[k])@, now),
                forall|t: Seq<char>| #[trigger]
                    self.sessions@.contains_key(t) <==> before.contains_key(t) && !(exists|k: int|
                        0 <= k < j && (#[trigger] expired@[k])@ == t),
                forall|t: Seq<char>| #[trigger]
                    self.sessions@.contains_key(t) ==> self.sessions@[t] == before[t],
                j == 0 ==> self.credentials@ == good,
                j > 0 ==> forall|t: Seq<char>| #[trigger]
                    self.credentials@.contains_key(t) <==> live(good, now).contains_key(t) && !(
                    exists|k: int| 0 <= k < j && (#[trigger] expired@[k])@ == t),
                forall|t: Seq<char>| #[trigger]
                    self.credentials@.contains_key(t) ==> self.credentials@[t] == good[t],
            decreases expired@.len() - j,
        {
            let token: &str = expired[j].as_str();
            let ghost sessions = self.sessions@;
            let ghost credentials = self.credentials@;
            self.sessions.remove(token);
            self.credentials.remove(token, now, now);
            proof {
                assert forall|t: Seq<char>| #[trigger]
                    self.credentials@.contains_key(t) <==> live(good, now).contains_key(t) && !(
                    exists|k: int| 0 <= k < j + 1 && (#[trigger] expired@[k])@ == t) by {
                    if j > 0 {
                        assert(credentials.contains_key(t) <==> live(good, now).contains_key(t)
                            && !(exists|k: int| 0 <= k < j && (#[trigger] expired@[k])@ == t));
                    }
                    assert(expired@[j as int]@ == token@);
                }
                assert forall|t: Seq<char>| #[trigger]
                    self.sessions@.contains_key(t) <==> before.contains_key(t) && !(exists|k: int|
                        0 <= k < j + 1 && (#[trigger] expired@[k])@ == t) by {
                    assert(sessions.contains_key(t) <==> before.contains_key(t) && !(exists|k: int|
                        0 <= k < j && (#[trigger] expired@[k])@ == t));
                    assert(expired@[j as int]@ == token@);
                }
            }
            j = j + 1;
        }
        proof {
            assert forall|t: Seq<char>|
                self.sessions@.contains_key(t) <==> unexpired(before, now).contains_key(t) by {
                assert(self.sessions@.contains_key(t) <==> before.contains_key(t) && !(exists|k: int|
                    0 <= k < expired@.len() && (#[trigger] expired@[k])@ == t));
                if exists|k: int| 0 <= k < expired@.len() && (#[trigger] expired@[k])@ == t {
                    let k = choose|k: int| 0 <= k < expired@.len() && (#[trigger] expired@[k])@ == t;
                    assert(is_expired(before, expired@[k]@, now));
                }
                if is_expired(before, t, now) {
                    assert(exists|k: int| 0 <= k < expired@.len() && (#[trigger] expired@[k])@ == t);
                }
            }
            assert(self.sessions@ =~= unexpired(before, now));
            if expired@.len() > 0 {
                assert(is_expired(before, expired@[0]@, now));
                assert forall|t: Seq<char>|
                    self.credentials@.contains_key(t) <==> credentials_left(
                        good,
                        before,
                        now,
                    ).contains_key(t) by {
                    assert(self.credentials@.contains_key(t) <==> live(good, now).contains_key(t)
                        && !(exists|k: int| 0 <= k < expired@.len() && (#[trigger] expired@[k])@
                        == t));
                    if exists|k: int| 0 <= k < expired@.len() && (#[trigger] expired@[k])@ == t {
                        let k = choose|k: int|
                            0 <= k < expired@.len() && (#[trigger] expired@[k])@ == t;
                        assert(is_expired(before, expired@[k]@, now));
                    }
                }
                assert(self.credentials@ =~= credentials_left(good, before, now));
            }
        }
    }
}

// ---------------------------------------------------------------------------
// Targets
// ---------------------------------------------------------------------------

/// The host lies in the namespace.
pub open spec fn in_namespace(namespace: Seq<char>, host: Seq<char>) -> bool {
    let ns = lower(namespace);
    let h = lower(host);
    ||| ("."@ + ns + ".svc"@).is_suffix_of(h)
    ||| ("."@ + ns + ".svc.cluster.local"@).is_suffix_of(h)
    ||| ("."@ + ns).is_suffix_of(h)
}

/// Connects to targets inside one namespace.
#[derive(Debug)]
pub struct NamespacedTcpConnector {
    pub namespace: String,
}

impl NamespacedTcpConnector {
    pub fn new(namespace: String) -> (r: Self)
        ensures
            r.namespace == namespace,
    {
        NamespacedTcpConnector { namespace }
    }

    pub fn host_allowed(namespace: &str, host: &str) -> (r: bool)
        ensures
            r == in_namespace(namespace@, host@),
    {
        let ns: String = to_lower(namespace);
        let h: String = to_lower(host);
        let short: String = concat3(".", ns.as_str(), ".svc");
        let long: String = concat3(".", ns.as_str(), ".svc.cluster.local");
        let bare: String = concat(".", ns.as_str());
        ends_with(h.as_str(), short.as_str()) || ends_with(h.as_str(), long.as_str()) || ends_with(
            h.as_str(),
            bare.as_str(),
        )
    }

    /// The address that is connected to for a target, if it lies in the
    /// namespace.
    pub fn address(&self, target: &TunnelTarget) -> (r: Result<String, TunnelError>)
        ensures
            match r {
                Ok(address) => in_namespace(self.namespace@, target.host@) && address@
                    == target.host@ + ":"@ + decimal(target.port as nat),
                Err(e) => !in_namespace(self.namespace@, target.host@) && (e matches
                    TunnelError::Remote(m) && m@ == "target namespace not permitted"@),
            },
    {
        if Self::host_allowed(self.namespace.as_str(), target.host.as_str()) {
            Ok(target.address())
        } else {
            Err(TunnelError::Remote("target namespace not permitted".to_owned()))
        }
    }
}

proof fn lemma_suffix_plain(prefix: Seq<char>, suffix: Seq<char>)
    ensures
        suffix.is_suffix_of(prefix + suffix),
{
    let whole = prefix + suffix;
    assert(whole.subrange(whole.len() - suffix.len(), whole.len() as int) =~= suffix);
}

proof fn lemma_lower_concat(a: Seq<char>, b: Seq<char>)
    ensures
        lower(a + b) == lower(a) + lower(b),
{
    assert(lower(a + b) =~= lower(a) + lower(b));
}

/// The services of a namespace can be reached from it.
pub proof fn law_own_services_allowed(namespace: Seq<char>, service: Seq<char>)
    ensures
        in_namespace(namespace, service + ("."@ + namespace + ".svc"@)),
{
    let ns = lower(namespace);
    let tail = "."@ + namespace + ".svc"@;
    lemma_lower_concat(service, tail);
    lemma_lower_concat("."@ + namespace, ".svc"@);
    lemma_lower_concat("."@, namespace);
    reveal_strlit(".");
    reveal_strlit(".svc");
    assert(lower("."@) =~= "."@);
    assert(lower(".svc"@) =~= ".svc"@);
    lemma_suffix_plain(lower(service), "."@ + ns + ".svc"@);
}

/// A session that was opened lasts ten minutes: its token is accepted, a
/// connection with it gets into the namespace, and no other session is touched.
pub proof fn law_opened_session_is_found(
    gateway: &mut DevboxDirectGateway,
    token: &str,
    user_id: u128,
    environment_id: u128,
    namespace: String,
    now: i64,
    ends: i64,
    after: &mut DevboxDirectGateway,
    presented: &str,
    later: i64,
    r: Option<(u128, u128, String)>,
)
    requires
        now <= i64::MAX - SESSION_NANOS,
        call_ensures(
            DevboxDirectGateway::open_session,
            (gateway, token, user_id, environment_id, namespace, now),
            ends,
        ),
        *old(after) == *final(gateway),
        call_ensures(DevboxDirectGateway::accept, (after, presented, later), r),
    ensures
        ends - now == 600_000_000_000,
        final(gateway).credentials@.contains_key(token@),
        final(gateway).credentials@[token@] == ends,
        final(gateway).sessions@[token@].expires_at == ends,
        presented@ == token@ ==> r == Some((user_id, environment_id, namespace)),
        presented@ != token@ ==> (r is Some <==> old(gateway).sessions@.contains_key(presented@)),
        presented@ != token@ ==> (r matches Some(s) ==> s.0 == old(
            gateway,
        ).sessions@[presented@].user_id && s.1 == old(
            gateway,
        ).sessions@[presented@].environment_id && s.2 == old(
            gateway,
        ).sessions@[presented@].namespace),
{
}

/// The session of a new token is the user's, and lasts ten minutes.
pub proof fn law_issued_token_opens_a_session(
    gateway: &mut DevboxDirectGateway,
    user_id: u128,
    environment_id: u128,
    namespace: String,
    now: i64,
    r: DirectCredential,
)
    requires
        now <= i64::MAX - SESSION_NANOS,
        call_ensures(
            DevboxDirectGateway::issue_config,
            (gateway, user_id, environment_id, namespace, now),
            r,
        ),
    ensures
        r.expires_at - now == 600_000_000_000,
        final(gateway).credentials@.contains_key(r.token@),
        final(gateway).sessions@.contains_key(r.token@),
        ({
            let session = final(gateway).sessions@[r.token@];
            session.user_id == user_id && session.environment_id == environment_id
                && session.namespace == namespace && session.expires_at == r.expires_at
        }),
{
}

/// A connection whose token has no session is dropped, and its token is used
/// up. A session is not changed by being used.
pub proof fn law_no_session_no_entry(
    gateway: &mut DevboxDirectGateway,
    token: &str,
    now: i64,
    r: Option<(u128, u128, String)>,
    other: Seq<char>,
)
    requires
        call_ensures(DevboxDirectGateway::accept, (gateway, token, now), r),
    ensures
        r is Some <==> old(gateway).sessions@.contains_key(token@),
        r is None ==> !final(gateway).credentials@.contains_key(token@),
        r is Some ==> final(gateway).credentials == old(gateway).credentials,
        other != token@ && old(gateway).credentials@.contains_key(other) && old(
            gateway,
        ).credentials@[other] >= now ==> final(gateway).credentials@.contains_key(other),
        final(gateway).sessions == old(gateway).sessions,
{
}

/// A clean-up ends just the sessions whose time is over, and uses up their
/// tokens; a token that is still good and whose session is not over stays.
pub proof fn law_cleanup_ends_sessions(
    gateway: &mut DevboxDirectGateway,
    now: i64,
    token: Seq<char>,
)
    requires
        call_ensures(DevboxDirectGateway::cleanup, (gateway, now), ()),
    ensures
        ({
            let sessions = old(gateway).sessions@;
            let over = sessions.contains_key(token) && sessions[token].expires_at <= now;
            &&& final(gateway).sessions@.contains_key(token) <==> sessions.contains_key(token)
                && !over
            &&& sessions.contains_key(token) && !over ==> final(gateway).sessions@[token]
                == sessions[token]
            &&& over ==> !final(gateway).credentials@.contains_key(token)
            &&& !over && old(gateway).credentials@.contains_key(token) && old(
                gateway,
            ).credentials@[token] >= now ==> final(gateway).credentials@.contains_key(token)
            &&& final(gateway).credentials@.contains_key(token) ==> old(
                gateway,
            ).credentials@.contains_key(token) && final(gateway).credentials@[token] == old(
                gateway,
            ).credentials@[token]
        }),
{
    let sessions = old(gateway).sessions@;
    if sessions.contains_key(token) && sessions[token].expires_at <= now {
        assert(is_expired(sessions, token, now));
    }
}

/// Just the hosts whose name ends in a dot and the namespace, with or without
/// what the cluster appends, can be reached, whatever their case, and they are
/// reached at the port that was asked for.
pub proof fn law_targets_of_the_namespace(
    connector: NamespacedTcpConnector,
    target: TunnelTarget,
    r: Result<String, TunnelError>,
)
    requires
        call_ensures(NamespacedTcpConnector::address, (&connector, &target), r),
    ensures
        ({
            let host = lower(target.host@);
            let name = seq!['.'] + lower(connector.namespace@);
            r is Ok <==> name.is_suffix_of(host) || (name + ".svc"@).is_suffix_of(host) || (name
                + ".svc.cluster.local"@).is_suffix_of(host)
        }),
        r matches Ok(address) ==> address@ == target.host@ + seq![':'] + decimal(
            target.port as nat,
        ),
{
    reveal_strlit(".");
    reveal_strlit(":");
    assert("."@ =~= seq!['.']);
    assert(":"@ =~= seq![':']);
}

} // verus!
