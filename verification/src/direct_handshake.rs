//! Credentials for direct tunnels: how they are kept, sent and checked.
use crate::text::{same, utf8_text};
use crate::text_map::TextMap;
use crate::tunnel_error::TunnelError;
use crate::wire::{be16, push_bytes, push_u16, read_u16, slice_bytes, u16_at};
use vstd::prelude::*;
use vstd::utf8::{decode_utf8, encode_utf8, valid_utf8};

verus! {

broadcast use {vstd::utf8::encode_utf8_valid_utf8, vstd::utf8::encode_utf8_decode_utf8};

pub const HANDSHAKE_MAX_TOKEN_LEN: usize = 65535;

/// The bytes of a token.
pub open spec fn token_bytes(token: Seq<char>) -> Seq<u8> {
    be16(encode_utf8(token).len() as u16) + encode_utf8(token)
}

/// Writes a token. Fails on one that is too long.
pub fn write_token(token: &str) -> (r: Result<Vec<u8>, TunnelError>)
    ensures
        match r {
            Ok(bytes) => encode_utf8(token@).len() <= HANDSHAKE_MAX_TOKEN_LEN && bytes@
                == token_bytes(token@),
            Err(e) => encode_utf8(token@).len() > HANDSHAKE_MAX_TOKEN_LEN && (e matches
                TunnelError::Remote(m) && m@ == "direct credential too long"@),
        },
{
    let bytes: &[u8] = token.as_bytes();
    if bytes.len() > HANDSHAKE_MAX_TOKEN_LEN {
        return Err(TunnelError::Remote("direct credential too long".to_owned()));
    }
    let mut out: Vec<u8> = Vec::new();
    push_u16(&mut out, bytes.len() as u16);
    push_bytes(&mut out, bytes);
    proof {
        assert(out@ =~= token_bytes(token@));
    }
    Ok(out)
}

/// What the bytes of a token say so far.
pub enum TokenParse {
    More,
    Invalid,
    Done { token: Seq<char>, used: int },
}

/// What the bytes of a token say so far.
pub open spec fn token_in(data: Seq<u8>) -> TokenParse {
    if data.len() < 2 || data.len() < 2 + u16_at(data, 0) {
        TokenParse::More
    } else {
        let n = u16_at(data, 0) as int;
        let text = data.subrange(2, 2 + n);
        if valid_utf8(text) {
            TokenParse::Done { token: decode_utf8(text), used: 2 + n }
        } else {
            TokenParse::Invalid
        }
    }
}

/// Reads a token from the bytes that have come; nothing where more are
/// needed.
pub fn read_token(data: &[u8]) -> (r: Result<Option<(String, usize)>, TunnelError>)
    ensures
        match token_in(data@) {
            TokenParse::More => r matches Ok(None),
            TokenParse::Invalid => r matches Err(TunnelError::Remote(m)) && m@
                == "invalid credential encoding"@,
            TokenParse::Done { token, used } => r matches Ok(Some((t, n))) && t@ == token && n
                == used,
        },
{
    if data.len() < 2 {
        return Ok(None);
    }
    let n: usize = read_u16(data, 0) as usize;
    if data.len() < 2 + n {
        return Ok(None);
    }
    match utf8_text(slice_bytes(data, 2, 2 + n)) {
        Ok(token) => Ok(Some((token, 2 + n))),
        Err(_) => Err(TunnelError::Remote("invalid credential encoding".to_owned())),
    }
}

/// A token is read as it was written, whatever follows it.
pub proof fn law_token_round_trip(token: Seq<char>, rest: Seq<u8>)
    requires
        encode_utf8(token).len() <= HANDSHAKE_MAX_TOKEN_LEN,
    ensures
        token_in(token_bytes(token) + rest) == (TokenParse::Done {
            token,
            used: token_bytes(token).len() as int,
        }),
{
    let text = encode_utf8(token);
    let n = text.len() as int;
    let data = token_bytes(token) + rest;
    assert(data[0] == be16(n as u16)[0]);
    assert(data[1] == be16(n as u16)[1]);
    assert(u16_at(data, 0) == n);
    assert(data.subrange(2, 2 + n) =~= text);
}

/// The byte with which a server accepts a token.
pub const SERVER_ACK: u8 = 1;

/// Reads the answer of a server.
pub fn read_server_ack(ack: u8) -> (r: Result<(), TunnelError>)
    ensures
        match r {
            Ok(_) => ack == SERVER_ACK,
            Err(e) => ack != SERVER_ACK && (e matches TunnelError::Remote(m) && m@
                == "direct server rejected credential"@),
        },
{
    if ack == SERVER_ACK {
        Ok(())
    } else {
        Err(TunnelError::Remote("direct server rejected credential".to_owned()))
    }
}

// ---------------------------------------------------------------------------
// Credentials
// ---------------------------------------------------------------------------

/// The tokens that are still good at a time.
pub open spec fn live(tokens: Map<Seq<char>, i64>, now: i64) -> Map<Seq<char>, i64> {
    tokens.restrict(Set::new(|t: Seq<char>| tokens.contains_key(t) && tokens[t] >= now))
}

/// The tokens that a server accepts, and until when. Times are in nanoseconds
/// since the epoch.
#[derive(Debug)]
pub struct DirectCredentialStore {
    tokens: TextMap<i64>,
}

impl View for DirectCredentialStore {
    type V = Map<Seq<char>, i64>;

    closed spec fn view(&self) -> Map<Seq<char>, i64> {
        self.tokens@
    }
}

impl DirectCredentialStore {
    pub fn new() -> (r: Self)
        ensures
            r@ == Map::<Seq<char>, i64>::empty(),
    {
        DirectCredentialStore { tokens: TextMap::new() }
    }

    /// Forgets the tokens that are no longer good.
    pub fn cleanup_expired(&mut self, now: i64)
        ensures
            final(self)@ == live(old(self)@, now),
    {
        let ghost before = self.tokens@;
        let ghost list = self.tokens.entry_seq();
        let mut kept: TextMap<i64> = TextMap::new();
        let mut i: usize = 0;
        while i < self.tokens.len()
            invariant
                i <= list.len(),
                list == self.tokens.entry_seq(),
                before == self.tokens@,
                forall|t: Seq<char>| #[trigger]
                    kept@.contains_key(t) <==> before.contains_key(t) && before[t] >= now && (
                    exists|k: int| 0 <= k < i && (#[trigger] list[k]).0@ == t),
                forall|t: Seq<char>| #[trigger]
                    kept@.contains_key(t) ==> kept@[t] == before[t],
            decreases list.len() - i,
        {
            proof {
                self.tokens.lemma_entries();
            }
            let (token, _value) = self.tokens.entry(i);
            let ghost current = kept@;
            if let Some(expires_at) = self.tokens.get(token) {
                if *expires_at >= now {
                    kept.insert(token.to_owned(), *expires_at);
                }
            }
            proof {
                assert forall|t: Seq<char>| #[trigger]
                    kept@.contains_key(t) <==> before.contains_key(t) && before[t] >= now && (
                    exists|k: int| 0 <= k < i + 1 && (#[trigger] list[k]).0@ == t) by {
                    assert(current.contains_key(t) <==> before.contains_key(t) && before[t] >= now
                        && (exists|k: int| 0 <= k < i && (#[trigger] list[k]).0@ == t));
                    assert(list[i as int].0@ == token@);
                }
            }
            i = i + 1;
        }
        proof {
            self.tokens.lemma_entries();
            assert(kept@ =~= live(before, now));
        }
        self.tokens = kept;
    }

    /// Accepts one token and no other.
    pub fn replace(&mut self, token: String, expires_at: i64, now: i64)
        ensures
            final(self)@ == live(Map::<Seq<char>, i64>::empty().insert(token@, expires_at), now),
    {
        let mut tokens: TextMap<i64> = TextMap::new();
        tokens.insert(token, expires_at);
        self.tokens = tokens;
        self.cleanup_expired(now);
    }

    /// Accepts one more token.
    pub fn insert(&mut self, token: String, expires_at: i64, now: i64)
        ensures
            final(self)@ == live(old(self)@.insert(token@, expires_at), now),
    {
        self.tokens.insert(token, expires_at);
        self.cleanup_expired(now);
    }

    /// Uses a token up; tells whether it was good. The store is swept first,
    /// and the token is checked after that.
    pub fn remove(&mut self, token: &str, swept_at: i64, checked_at: i64) -> (r: bool)
        ensures
            final(self)@ == live(old(self)@, swept_at).remove(token@),
            r == (live(old(self)@, swept_at).contains_key(token@) && old(self)@[token@]
                >= checked_at),
    {
        self.cleanup_expired(swept_at);
        let good: bool = match self.tokens.get(token) {
            Some(expires_at) => *expires_at >= checked_at,
            None => false,
        };
        self.tokens.remove(token);
        good
    }

    /// Tells whether a token is good.
    pub fn contains(&self, token: &str, now: i64) -> (r: bool)
        ensures
            r == live(self@, now).contains_key(token@),
    {
        match self.tokens.get(token) {
            Some(expires_at) => *expires_at >= now,
            None => false,
        }
    }
}

/// A token is good once: whatever the time, it is not good after it was used.
pub proof fn law_token_is_used_once(
    tokens: Map<Seq<char>, i64>,
    token: Seq<char>,
    swept_at: i64,
    later: i64,
)
    ensures
        !live(live(tokens, swept_at).remove(token), later).contains_key(token),
{
}

/// A token that has expired is never good again.
pub proof fn law_expired_stays_expired(
    tokens: Map<Seq<char>, i64>,
    token: Seq<char>,
    now: i64,
    later: i64,
)
    requires
        !live(tokens, now).contains_key(token),
        now <= later,
    ensures
        !live(tokens, later).contains_key(token),
        !live(live(tokens, now), later).contains_key(token),
{
}

/// Checks the token that a peer presented, and uses it up.
pub fn accept_token(
    store: &mut DirectCredentialStore,
    token: &str,
    swept_at: i64,
    checked_at: i64,
) -> (r: Result<(), TunnelError>)
    ensures
        final(store)@ == live(old(store)@, swept_at).remove(token@),
        ({
            let good = live(old(store)@, swept_at).contains_key(token@) && old(store)@[token@]
                >= checked_at;
            match r {
                Ok(_) => good,
                Err(e) => !good && (e matches TunnelError::Remote(m) && m@
                    == "invalid direct credential"@),
            }
        }),
{
    if store.remove(token, swept_at, checked_at) {
        Ok(())
    } else {
        Err(TunnelError::Remote("invalid direct credential".to_owned()))
    }
}

/// Checks the token that a peer of a relayed connection presented.
pub fn check_relay_token(presented: &str, expected: &str) -> (r: Result<(), TunnelError>)
    ensures
        match r {
            Ok(_) => presented@ == expected@,
            Err(e) => presented@ != expected@ && (e matches TunnelError::Remote(m) && m@
                == "invalid direct credential"@),
        },
{
    if same(presented, expected) {
        Ok(())
    } else {
        Err(TunnelError::Remote("invalid direct credential".to_owned()))
    }
}

/// What a peer writes as its token, the server reads as that token, whatever
/// follows it; only a token that is too long is not written.
pub proof fn law_written_token_is_read(
    token: &str,
    written: Result<Vec<u8>, TunnelError>,
    rest: Seq<u8>,
    data: &[u8],
    read: Result<Option<(String, usize)>, TunnelError>,
)
    requires
        call_ensures(write_token, (token,), written),
        written matches Ok(bytes) ==> data@ == bytes@ + rest,
        call_ensures(read_token, (data,), read),
    ensures
        written is Ok <==> encode_utf8(token@).len() <= 65535,
        written matches Ok(bytes) ==> (read matches Ok(Some((t, used))) && t@ == token@ && used
            == bytes@.len()),
{
    if written is Ok {
        law_token_round_trip(token@, rest);
    }
}

/// As long as not all of a token has come, the server waits for more.
pub proof fn law_part_of_a_token_is_waited_for(
    token: &str,
    written: Vec<u8>,
    n: int,
    data: &[u8],
    read: Result<Option<(String, usize)>, TunnelError>,
)
    requires
        call_ensures(write_token, (token,), Ok::<Vec<u8>, TunnelError>(written)),
        0 <= n < written@.len(),
        data@ == written@.take(n),
        call_ensures(read_token, (data,), read),
    ensures
        read matches Ok(None),
{
    let k = encode_utf8(token@).len();
    assert(written@[0] == be16(k as u16)[0]);
    assert(written@[1] == be16(k as u16)[1]);
    if n >= 2 {
        assert(data@[0] == written@[0]);
        assert(data@[1] == written@[1]);
        assert(u16_at(data@, 0) == k);
    }
}

/// A token is good until it expires: it is looked up just where it is listed
/// and its time has not passed.
pub proof fn law_listed_tokens_are_good(
    store: DirectCredentialStore,
    token: &str,
    now: i64,
    r: bool,
)
    requires
        call_ensures(DirectCredentialStore::contains, (&store, token, now), r),
    ensures
        r <==> store@.contains_key(token@) && store@[token@] >= now,
{
}

/// One more token is accepted until it expires, and those that have not expired
/// stay.
pub proof fn law_one_more_token_is_accepted(
    store: &mut DirectCredentialStore,
    token: String,
    expires_at: i64,
    now: i64,
    other: Seq<char>,
)
    requires
        call_ensures(DirectCredentialStore::insert, (store, token, expires_at, now), ()),
    ensures
        final(store)@.contains_key(token@) <==> expires_at >= now,
        expires_at >= now ==> final(store)@[token@] == expires_at,
        other != token@ ==> (final(store)@.contains_key(other) <==> old(store)@.contains_key(other)
            && old(store)@[other] >= now),
        other != token@ && final(store)@.contains_key(other) ==> final(store)@[other] == old(
            store,
        )@[other],
{
}

/// Where one token replaces the others, none of the others is accepted.
pub proof fn law_replaced_tokens_are_gone(
    store: &mut DirectCredentialStore,
    token: String,
    expires_at: i64,
    now: i64,
    other: Seq<char>,
)
    requires
        call_ensures(DirectCredentialStore::replace, (store, token, expires_at, now), ()),
    ensures
        final(store)@.contains_key(token@) <==> expires_at >= now,
        expires_at >= now ==> final(store)@[token@] == expires_at,
        other != token@ ==> !final(store)@.contains_key(other),
{
}

/// A sweep takes away just the tokens whose time has passed.
pub proof fn law_sweep_takes_the_expired(
    store: &mut DirectCredentialStore,
    now: i64,
    token: Seq<char>,
)
    requires
        call_ensures(DirectCredentialStore::cleanup_expired, (store, now), ()),
    ensures
        final(store)@.contains_key(token) <==> old(store)@.contains_key(token) && old(store)@[token]
            >= now,
        final(store)@.contains_key(token) ==> final(store)@[token] == old(store)@[token],
{
}

/// A peer is let in just with a token that is listed and has not expired. The
/// token is used up either way, and the others that have not expired stay.
pub proof fn law_peers_need_a_good_token(
    store: &mut DirectCredentialStore,
    token: &str,
    swept_at: i64,
    checked_at: i64,
    r: Result<(), TunnelError>,
    other: Seq<char>,
)
    requires
        call_ensures(accept_token, (store, token, swept_at, checked_at), r),
    ensures
        r is Ok <==> old(store)@.contains_key(token@) && old(store)@[token@] >= swept_at && old(
            store,
        )@[token@] >= checked_at,
        !final(store)@.contains_key(token@),
        other != token@ ==> (final(store)@.contains_key(other) <==> old(store)@.contains_key(other)
            && old(store)@[other] >= swept_at),
{
}

/// Using a token up tells what accepting it tells.
pub proof fn law_removed_token_was_good(
    store: &mut DirectCredentialStore,
    token: &str,
    swept_at: i64,
    checked_at: i64,
    r: bool,
)
    requires
        call_ensures(DirectCredentialStore::remove, (store, token, swept_at, checked_at), r),
    ensures
        r <==> old(store)@.contains_key(token@) && old(store)@[token@] >= swept_at && old(
            store,
        )@[token@] >= checked_at,
        !final(store)@.contains_key(token@),
{
}

/// The answer of a server is taken just where it accepts, and a relayed peer is
/// let in just with the expected token.
pub proof fn law_only_acceptance_counts(
    ack: u8,
    answered: Result<(), TunnelError>,
    presented: &str,
    expected: &str,
    checked: Result<(), TunnelError>,
)
    requires
        call_ensures(read_server_ack, (ack,), answered),
        call_ensures(check_relay_token, (presented, expected), checked),
    ensures
        answered is Ok <==> ack == 1,
        checked is Ok <==> presented@ == expected@,
{
}

} // verus!
