//! The proxy connections of each branch, and how they are told to end.
use std::collections::HashMap;
use vstd::prelude::*;

verus! {

broadcast use vstd::std_specs::hash::group_hash_axioms;

/// A channel for each branch with connections, and one for connections of no
/// branch. A channel carries the word that its connections have to end.
#[derive(Debug)]
pub struct ConnectionRegistry<T> {
    shared: Option<T>,
    branches: HashMap<u128, T>,
}

impl<T> View for ConnectionRegistry<T> {
    type V = Map<Option<u128>, T>;

    closed spec fn view(&self) -> Map<Option<u128>, T> {
        Map::new(
            |k: Option<u128>|
                match k {
                    Some(id) => self.branches@.contains_key(id),
                    None => self.shared is Some,
                },
            |k: Option<u128>|
                match k {
                    Some(id) => self.branches@[id],
                    None => self.shared->0,
                },
        )
    }
}

/// The channels that a shutdown of several branches tells to end, in turn.
pub open spec fn ended_channels<T>(channels: Map<Option<u128>, T>, keys: Seq<Option<u128>>) -> Seq<T>
    decreases keys.len(),
{
    if keys.len() == 0 {
        seq![]
    } else {
        let earlier = ended_channels(channels, keys.drop_last());
        if channels.contains_key(keys.last()) && !keys.drop_last().contains(keys.last()) {
            earlier.push(channels[keys.last()])
        } else {
            earlier
        }
    }
}

impl<T> ConnectionRegistry<T> {
    pub fn new() -> (r: Self)
        ensures
            r@ == Map::<Option<u128>, T>::empty(),
    {
        let r: Self = ConnectionRegistry { shared: None, branches: HashMap::new() };
        proof {
            assert(r@ =~= Map::<Option<u128>, T>::empty());
        }
        r
    }

    /// The channel of a branch; where there is none, the one that is offered.
    pub fn subscribe(&mut self, branch: Option<u128>, fresh: T)
        ensures
            final(self)@ == (if old(self)@.contains_key(branch) {
                old(self)@
            } else {
                old(self)@.insert(branch, fresh)
            }),
    {
        let ghost before = self@;
        match branch {
            Some(id) => {
                if !self.branches.contains_key(&id) {
                    self.branches.insert(id, fresh);
                }
            },
            None => {
                if self.shared.is_none() {
                    self.shared = Some(fresh);
                }
            },
        }
        proof {
            if before.contains_key(branch) {
                assert(self@ =~= before);
            } else {
                assert(self@ =~= before.insert(branch, fresh));
            }
        }
    }

    /// The channel of a branch.
    pub fn channel(&self, branch: Option<u128>) -> (r: Option<&T>)
        ensures
            match r {
                Some(c) => self@.contains_key(branch) && *c == self@[branch],
                None => !self@.contains_key(branch),
            },
    {
        match branch {
            Some(id) => self.branches.get(&id),
            None => self.shared.as_ref(),
        }
    }

    /// Forgets the channel of a branch and hands it out, to be told to end.
    pub fn shutdown_branch(&mut self, branch: Option<u128>) -> (r: Option<T>)
        ensures
            final(self)@ == old(self)@.remove(branch),
            match r {
                Some(c) => old(self)@.contains_key(branch) && c == old(self)@[branch],
                None => !old(self)@.contains_key(branch),
            },
    {
        let ghost before = self@;
        let r: Option<T> = match branch {
            Some(id) => self.branches.remove(&id),
            None => self.shared.take(),
        };
        proof {
            assert(self@ =~= before.remove(branch));
        }
        r
    }

    /// Forgets the channels of several branches and hands them out.
    pub fn shutdown_branches(&mut self, branches: Vec<Option<u128>>) -> (r: Vec<T>)
        ensures
            final(self)@ == old(self)@.remove_keys(branches@.to_set()),
            r@ == ended_channels(old(self)@, branches@),
    {
        let ghost before = self@;
        let mut out: Vec<T> = Vec::new();
        let mut i: usize = 0;
        proof {
            assert(branches@.take(0) =~= Seq::<Option<u128>>::empty());
            assert(self@ =~= before.remove_keys(branches@.take(0).to_set()));
        }
        while i < branches.len()
            invariant
                i <= branches@.len(),
                self@ == before.remove_keys(branches@.take(i as int).to_set()),
                out@ == ended_channels(before, branches@.take(i as int)),
            decreases branches@.len() - i,
        {
            let ghost done = branches@.take(i as int);
            let ghost next = branches@.take(i as int + 1);
            let ghost current = self@;
            proof {
                assert(next.drop_last() =~= done);
                assert(next =~= done.push(branches@[i as int]));
            }
            if let Some(channel) = self.shutdown_branch(branches[i]) {
                out.push(channel);
            }
            proof {
                assert forall|k: Option<u128>|
                    next.to_set().contains(k) <==> done.to_set().contains(k) || k
                        == branches@[i as int] by {
                    if done.contains(k) {
                        let j = choose|j: int| 0 <= j < done.len() && done[j] == k;
                        assert(next[j] == k);
                    }
                    if k == branches@[i as int] {
                        assert(next[i as int] == k);
                    }
                }
                assert(self@ =~= before.remove_keys(next.to_set()));
            }
            i = i + 1;
        }
        proof {
            assert(branches@.take(branches@.len() as int) =~= branches@);
        }
        out
    }
}

/// Whoever subscribes to a branch after it was shut down gets a new channel,
/// and is not ended by what was said to the old one.
pub proof fn law_fresh_after_shutdown<T>(
    channels: Map<Option<u128>, T>,
    branch: Option<u128>,
    fresh: T,
)
    ensures
        ({
            let ended = channels.remove(branch);
            let again = if ended.contains_key(branch) {
                ended
            } else {
                ended.insert(branch, fresh)
            };
            again[branch] == fresh
        }),
{
}

/// A connection listens to the channel of its branch, which is that of the
/// connections before it where there are any. No other branch is touched.
pub proof fn law_connections_share_a_channel<T>(
    registry: &mut ConnectionRegistry<T>,
    branch: Option<u128>,
    fresh: T,
    after: ConnectionRegistry<T>,
    other: Option<u128>,
    channel: Option<&T>,
)
    requires
        call_ensures(ConnectionRegistry::<T>::subscribe, (registry, branch, fresh), ()),
        after == *final(registry),
        call_ensures(ConnectionRegistry::<T>::channel, (&after, other), channel),
    ensures
        other == branch ==> channel is Some,
        old(registry)@.contains_key(other) ==> channel == Some(&old(registry)@[other]),
        other == branch && !old(registry)@.contains_key(branch) ==> channel == Some(&fresh),
        other != branch && !old(registry)@.contains_key(other) ==> channel is None,
{
}

/// Shutting a branch down ends the channel of that branch and no other.
pub proof fn law_shutdown_ends_one_branch<T>(
    registry: &mut ConnectionRegistry<T>,
    branch: Option<u128>,
    r: Option<T>,
    other: Option<u128>,
)
    requires
        call_ensures(ConnectionRegistry::<T>::shutdown_branch, (registry, branch), r),
    ensures
        r is Some <==> old(registry)@.contains_key(branch),
        r matches Some(c) ==> c == old(registry)@[branch],
        final(registry)@.contains_key(other) <==> old(registry)@.contains_key(other) && other
            != branch,
        final(registry)@.contains_key(other) ==> final(registry)@[other] == old(registry)@[other],
{
}

/// The channel is that of one of the branches.
pub open spec fn is_channel_of<T>(
    channels: Map<Option<u128>, T>,
    keys: Seq<Option<u128>>,
    channel: T,
) -> bool {
    exists|i: int|
        0 <= i < keys.len() && channels.contains_key(#[trigger] keys[i]) && channels[keys[i]]
            == channel
}

proof fn lemma_ended_channels<T>(channels: Map<Option<u128>, T>, keys: Seq<Option<u128>>)
    ensures
        forall|i: int|
            0 <= i < keys.len() && channels.contains_key(#[trigger] keys[i]) ==> ended_channels(
                channels,
                keys,
            ).contains(channels[keys[i]]),
        forall|j: int|
            0 <= j < ended_channels(channels, keys).len() ==> is_channel_of(
                channels,
                keys,
                #[trigger] ended_channels(channels, keys)[j],
            ),
        ended_channels(channels, keys).len() <= keys.len(),
    decreases keys.len(),
{
    if keys.len() > 0 {
        let n = keys.len() - 1;
        let shorter = keys.drop_last();
        lemma_ended_channels(channels, shorter);
        let earlier = ended_channels(channels, shorter);
        let all = ended_channels(channels, keys);
        assert(keys[n] == keys.last());
        assert forall|i: int|
            0 <= i < keys.len() && channels.contains_key(
                #[trigger] keys[i],
            ) implies all.contains(channels[keys[i]]) by {
            if i < n || shorter.contains(keys.last()) {
                let k = if i < n {
                    i
                } else {
                    choose|k: int| 0 <= k < shorter.len() && shorter[k] == keys.last()
                };
                assert(shorter[k] == keys[i]);
                assert(earlier.contains(channels[shorter[k]]));
                let j = choose|j: int| 0 <= j < earlier.len() && earlier[j] == channels[keys[i]];
                assert(all[j] == earlier[j]);
            } else {
                assert(all[all.len() - 1] == channels[keys[i]]);
            }
        }
        assert forall|j: int| 0 <= j < all.len() implies is_channel_of(
            channels,
            keys,
            #[trigger] all[j],
        ) by {
            if j < earlier.len() {
                assert(all[j] == earlier[j]);
                assert(is_channel_of(channels, shorter, earlier[j]));
                let i = choose|i: int|
                    0 <= i < shorter.len() && channels.contains_key(#[trigger] shorter[i])
                        && channels[shorter[i]] == earlier[j];
                assert(keys[i] == shorter[i]);
            } else {
                assert(channels[keys[n]] == all[j]);
            }
        }
    }
}

/// Shutting several branches down ends the channel of each of them, and no
/// other is ended or forgotten.
pub proof fn law_shutdown_ends_every_branch<T>(
    registry: &mut ConnectionRegistry<T>,
    branches: Vec<Option<u128>>,
    r: Vec<T>,
    i: int,
    other: Option<u128>,
)
    requires
        call_ensures(ConnectionRegistry::<T>::shutdown_branches, (registry, branches), r),
    ensures
        0 <= i < branches@.len() && old(registry)@.contains_key(branches@[i]) ==> r@.contains(
            old(registry)@[branches@[i]],
        ),
        0 <= i < branches@.len() ==> !final(registry)@.contains_key(branches@[i]),
        !branches@.contains(other) ==> final(registry)@.contains_key(other) == old(
            registry,
        )@.contains_key(other),
        r@.len() <= branches@.len(),
        forall|j: int|
            0 <= j < r@.len() ==> is_channel_of(old(registry)@, branches@, #[trigger] r@[j]),
{
    lemma_ended_channels(old(registry)@, branches@);
    if 0 <= i < branches@.len() {
        assert(branches@.contains(branches@[i]));
        assert(branches@.to_set().contains(branches@[i]));
    }
    let ended = ended_channels(old(registry)@, branches@);
    assert(ended == r@);
}

} // verus!
