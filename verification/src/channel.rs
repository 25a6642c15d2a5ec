//! Named byte channels for fan-out: a registry of channels, each owning the
//! bytes ever broadcast to it, and per-consumer receivers that drain a
//! channel at their own pace through a byte-offset cursor.
//!
//! The registry is modelled as a map from channel id (a character sequence)
//! to the channel's accumulated bytes; every operation's contract says how
//! it reads or rewrites that map.

use vstd::prelude::*;

use crate::strutil::str_eq;
use crate::CoreError;

verus! {

struct Channel {
    id: String,
    data: Vec<u8>,
}

/// No two registered channels share an id.
spec fn ids_unique(s: Seq<Channel>) -> bool {
    forall|i: int, j: int| 0 <= i < j < s.len() ==> s[i].id@ != s[j].id@
}

/// The registry a sequence of channels stands for: later entries win,
/// though under `ids_unique` the order never matters.
spec fn map_of(s: Seq<Channel>) -> Map<Seq<char>, Seq<u8>>
    decreases s.len(),
{
    if s.len() == 0 {
        Map::empty()
    } else {
        map_of(s.drop_last()).insert(s.last().id@, s.last().data@)
    }
}

proof fn lemma_map_of_contains(s: Seq<Channel>, id: Seq<char>)
    ensures
        map_of(s).contains_key(id) <==> (exists|i: int| 0 <= i < s.len() && s[i].id@ == id),
    decreases s.len(),
{
    if s.len() > 0 {
        lemma_map_of_contains(s.drop_last(), id);
        if map_of(s).contains_key(id) {
            if s.last().id@ == id {
                assert(s[s.len() - 1].id@ == id);
            } else {
                let i = choose|i: int| 0 <= i < s.drop_last().len() && s.drop_last()[i].id@ == id;
                assert(s[i].id@ == id);
            }
        }
        if exists|i: int| 0 <= i < s.len() && s[i].id@ == id {
            let i = choose|i: int| 0 <= i < s.len() && s[i].id@ == id;
            if i < s.len() - 1 {
                assert(s.drop_last()[i].id@ == id);
            }
        }
    }
}

proof fn lemma_map_of_get(s: Seq<Channel>, i: int)
    requires
        ids_unique(s),
        0 <= i < s.len(),
    ensures
        map_of(s).contains_key(s[i].id@),
        map_of(s)[s[i].id@] == s[i].data@,
    decreases s.len(),
{
    if i < s.len() - 1 {
        assert(s.drop_last()[i] == s[i]);
        lemma_map_of_get(s.drop_last(), i);
        assert(s.last().id@ != s[i].id@);
    }
}

proof fn lemma_map_of_update(s: Seq<Channel>, i: int, c: Channel)
    requires
        ids_unique(s),
        0 <= i < s.len(),
        c.id@ == s[i].id@,
    ensures
        ids_unique(s.update(i, c)),
        map_of(s.update(i, c)) == map_of(s).insert(c.id@, c.data@),
    decreases s.len(),
{
    let s2 = s.update(i, c);
    assert forall|p: int, q: int| 0 <= p < q < s2.len() implies s2[p].id@ != s2[q].id@ by {
        assert(s[p].id@ != s[q].id@);
    }
    if i == s.len() - 1 {
        assert(s2.drop_last() =~= s.drop_last());
        assert(map_of(s2) =~= map_of(s).insert(c.id@, c.data@));
    } else {
        lemma_map_of_update(s.drop_last(), i, c);
        assert(s2.drop_last() =~= s.drop_last().update(i, c));
        assert(s2.last() == s.last());
        assert(s.last().id@ != c.id@);
        assert(map_of(s2) =~= map_of(s).insert(c.id@, c.data@));
    }
}

proof fn lemma_map_of_push(s: Seq<Channel>, c: Channel)
    requires
        ids_unique(s),
        forall|i: int| 0 <= i < s.len() ==> s[i].id@ != c.id@,
    ensures
        ids_unique(s.push(c)),
        map_of(s.push(c)) == map_of(s).insert(c.id@, c.data@),
{
    assert(s.push(c).drop_last() =~= s);
    assert(s.push(c).last() == c);
}

proof fn lemma_map_of_remove(s: Seq<Channel>, i: int)
    requires
        ids_unique(s),
        0 <= i < s.len(),
    ensures
        ids_unique(s.remove(i)),
        map_of(s.remove(i)) == map_of(s).remove(s[i].id@),
    decreases s.len(),
{
    let s2 = s.remove(i);
    assert forall|p: int, q: int| 0 <= p < q < s2.len() implies s2[p].id@ != s2[q].id@ by {
        if q < i {
            assert(s2[p] == s[p] && s2[q] == s[q]);
        } else if p < i {
            assert(s2[p] == s[p] && s2[q] == s[q + 1]);
        } else {
            assert(s2[p] == s[p + 1] && s2[q] == s[q + 1]);
        }
    }
    if i == s.len() - 1 {
        assert(s2 =~= s.drop_last());
        lemma_map_of_contains(s.drop_last(), s[i].id@);
        assert(map_of(s.drop_last()) =~= map_of(s).remove(s[i].id@));
    } else {
        lemma_map_of_remove(s.drop_last(), i);
        assert(s2.drop_last() =~= s.drop_last().remove(i));
        assert(s2.last() == s.last());
        assert(s.last().id@ != s[i].id@);
        assert(map_of(s2) =~= map_of(s).remove(s[i].id@));
    }
}

/// The channel registry: named byte channels shared by broadcasters and
/// any number of receivers.
pub struct WebSocketManager {
    channels: Vec<Channel>,
}

impl View for WebSocketManager {
    type V = Map<Seq<char>, Seq<u8>>;

    closed spec fn view(&self) -> Map<Seq<char>, Seq<u8>> {
        map_of(self.channels@)
    }
}

impl WebSocketManager {
    /// The registry's internal invariant: channel ids are unique.
    pub closed spec fn wf(&self) -> bool {
        ids_unique(self.channels@)
    }

    /// An empty registry.
    pub fn new() -> (r: Self)
        ensures
            r.wf(),
            r@ == Map::<Seq<char>, Seq<u8>>::empty(),
    {
        Self { channels: Vec::new() }
    }

    /// The index of the channel named `channel_id`, if registered.
    fn find(&self, channel_id: &str) -> (r: Option<usize>)
        requires
            self.wf(),
        ensures
            match r {
                Some(i) => i < self.channels@.len() && self.channels@[i as int].id@ == channel_id@,
                None => forall|i: int|
                    0 <= i < self.channels@.len() ==> self.channels@[i].id@ != channel_id@,
            },
    {
        let mut i: usize = 0;
        while i < self.channels.len()
            invariant
                i <= self.channels@.len(),
                forall|j: int| 0 <= j < i ==> self.channels@[j].id@ != channel_id@,
            decreases self.channels@.len() - i,
        {
            if str_eq(self.channels[i].id.as_str(), channel_id) {
                return Some(i);
            }
            i += 1;
        }
        None
    }

    /// Register an empty channel under `channel_id`. An existing channel of
    /// that name is silently replaced, discarding its accumulated bytes.
    pub fn create_channel(&mut self, channel_id: &str)
        requires
            old(self).wf(),
        ensures
            final(self).wf(),
            final(self)@ == old(self)@.insert(channel_id@, Seq::<u8>::empty()),
    {
        let c = Channel { id: channel_id.to_owned(), data: Vec::new() };
        match self.find(channel_id) {
            Some(i) => {
                proof {
                    lemma_map_of_update(self.channels@, i as int, c);
                }
                self.channels.set(i, c);
            },
            None => {
                proof {
                    lemma_map_of_push(self.channels@, c);
                }
                self.channels.push(c);
            },
        }
    }

    /// Append `message` to the channel's accumulated bytes and return the
    /// new total length. Fails with `ChannelNotFound` if `channel_id` is
    /// not registered.
    pub fn broadcast(&mut self, channel_id: &str, message: &[u8]) -> (r: Result<usize, CoreError>)
        requires
            old(self).wf(),
        ensures
            final(self).wf(),
            match r {
                Ok(n) => {
                    &&& old(self)@.contains_key(channel_id@)
                    &&& final(self)@ == old(self)@.insert(
                        channel_id@,
                        old(self)@[channel_id@] + message@,
                    )
                    &&& n == old(self)@[channel_id@].len() + message@.len()
                },
                Err(e) => {
                    &&& e == CoreError::ChannelNotFound
                    &&& !old(self)@.contains_key(channel_id@)
                    &&& final(self)@ == old(self)@
                },
            },
    {
        match self.find(channel_id) {
            Some(i) => {
                proof {
                    lemma_map_of_get(self.channels@, i as int);
                }
                let mut c = self.channels.remove(i);
                c.data.extend_from_slice(message);
                let n = c.data.len();
                let ghost c2 = c;
                proof {
                    assert(c2.id@ == channel_id@);
                    assert(c2.data@ == old(self)@[channel_id@] + message@);
                    lemma_map_of_update(old(self).channels@, i as int, c2);
                }
                self.channels.insert(i, c);
                proof {
                    assert(self.channels@ =~= old(self).channels@.update(i as int, c2));
                }
                Ok(n)
            },
            None => {
                proof {
                    lemma_map_of_contains(self.channels@, channel_id@);
                }
                Err(CoreError::ChannelNotFound)
            },
        }
    }

    /// A snapshot of the channel's entire accumulated buffer, not just the
    /// unread part. Fails with `ChannelNotFound` if `channel_id` is not
    /// registered.
    pub fn get_message(&self, channel_id: &str) -> (r: Result<Vec<u8>, CoreError>)
        requires
            self.wf(),
        ensures
            match r {
                Ok(v) => self@.contains_key(channel_id@) && v@ == self@[channel_id@],
                Err(e) => e == CoreError::ChannelNotFound && !self@.contains_key(channel_id@),
            },
    {
        match self.find(channel_id) {
            Some(i) => {
                proof {
                    lemma_map_of_get(self.channels@, i as int);
                }
                Ok(vstd::slice::slice_to_vec(self.channels[i].data.as_slice()))
            },
            None => {
                proof {
                    lemma_map_of_contains(self.channels@, channel_id@);
                }
                Err(CoreError::ChannelNotFound)
            },
        }
    }

    /// Delete the channel entirely. Removing an unknown id is a no-op;
    /// later operations against the id fail with `ChannelNotFound`.
    pub fn remove_channel(&mut self, channel_id: &str)
        requires
            old(self).wf(),
        ensures
            final(self).wf(),
            final(self)@ == old(self)@.remove(channel_id@),
    {
        match self.find(channel_id) {
            Some(i) => {
                proof {
                    lemma_map_of_remove(self.channels@, i as int);
                }
                self.channels.remove(i);
            },
            None => {
                proof {
                    lemma_map_of_contains(self.channels@, channel_id@);
                    assert(self@.remove(channel_id@) =~= self@);
                }
            },
        }
    }

    /// The registered channel ids, without duplicates, as a snapshot.
    pub fn list_channels(&self) -> (r: Vec<String>)
        requires
            self.wf(),
        ensures
            forall|i: int| 0 <= i < r@.len() ==> self@.contains_key(r@[i]@),
            forall|id: Seq<char>|
                self@.contains_key(id) ==> exists|i: int| 0 <= i < r@.len() && r@[i]@ == id,
            forall|i: int, j: int| 0 <= i < j < r@.len() ==> r@[i]@ != r@[j]@,
    {
        let mut r: Vec<String> = Vec::new();
        let mut i: usize = 0;
        while i < self.channels.len()
            invariant
                self.wf(),
                i <= self.channels@.len(),
                r@.len() == i,
                forall|j: int| 0 <= j < i ==> r@[j]@ == self.channels@[j].id@,
            decreases self.channels@.len() - i,
        {
            r.push(self.channels[i].id.clone());
            i += 1;
        }
        proof {
            assert forall|k: int| 0 <= k < r@.len() implies self@.contains_key(r@[k]@) by {
                lemma_map_of_get(self.channels@, k);
            }
            assert forall|id: Seq<char>| self@.contains_key(id) implies exists|k: int|
                0 <= k < r@.len() && r@[k]@ == id by {
                lemma_map_of_contains(self.channels@, id);
                let k = choose|k: int|
                    0 <= k < self.channels@.len() && self.channels@[k].id@ == id;
                assert(r@[k]@ == id);
            }
        }
        r
    }

    /// Truncate the channel's buffer to empty while keeping it registered.
    /// Fails with `ChannelNotFound` if `channel_id` is not registered.
    pub fn clear_channel(&mut self, channel_id: &str) -> (r: Result<(), CoreError>)
        requires
            old(self).wf(),
        ensures
            final(self).wf(),
            match r {
                Ok(()) => {
                    &&& old(self)@.contains_key(channel_id@)
                    &&& final(self)@ == old(self)@.insert(channel_id@, Seq::<u8>::empty())
                },
                Err(e) => {
                    &&& e == CoreError::ChannelNotFound
                    &&& !old(self)@.contains_key(channel_id@)
                    &&& final(self)@ == old(self)@
                },
            },
    {
        match self.find(channel_id) {
            Some(i) => {
                let c = Channel { id: channel_id.to_owned(), data: Vec::new() };
                proof {
                    lemma_map_of_get(self.channels@, i as int);
                    lemma_map_of_update(self.channels@, i as int, c);
                }
                self.channels.set(i, c);
                Ok(())
            },
            None => {
                proof {
                    lemma_map_of_contains(self.channels@, channel_id@);
                }
                Err(CoreError::ChannelNotFound)
            },
        }
    }
}

/// Removal is final: once a channel id is taken out of the registry map,
/// the map no longer contains it, so every later `broadcast`, `get_message`
/// or `clear_channel` against that id fails with `ChannelNotFound` by those
/// functions' contracts, until the id is created anew.
pub proof fn lemma_removed_channel_not_found(channels: Map<Seq<char>, Seq<u8>>, id: Seq<char>)
    ensures
        !channels.remove(id).contains_key(id),
{
}

/// A per-consumer cursor over one channel's accumulated bytes. It refers to
/// the channel by name only and does not keep it alive.
pub struct WebSocketReceiver {
    channel_id: String,
    position: usize,
}

impl WebSocketReceiver {
    /// The id of the channel this receiver drains.
    pub closed spec fn spec_channel_id(&self) -> Seq<char> {
        self.channel_id@
    }

    /// The cursor: how many bytes of the channel's buffer were already
    /// handed out by `recv`.
    pub closed spec fn spec_position(&self) -> nat {
        self.position as nat
    }

    /// A fresh receiver for `channel_id`, starting at the beginning.
    pub fn new(channel_id: String) -> (r: Self)
        ensures
            r.spec_channel_id() == channel_id@,
            r.spec_position() == 0,
    {
        Self { channel_id, position: 0 }
    }

    /// Non-blocking poll: the unread suffix of the channel's buffer, if any,
    /// advancing the cursor to the buffer's end; `None` when nothing new is
    /// there (in particular when the buffer shrank below the cursor after a
    /// clear). Fails with `ChannelNotFound` if the channel is unknown or
    /// was removed.
    pub fn recv(&mut self, manager: &WebSocketManager) -> (r: Result<Option<Vec<u8>>, CoreError>)
        requires
            manager.wf(),
        ensures
            final(self).spec_channel_id() == old(self).spec_channel_id(),
            match r {
                Ok(opt) => {
                    &&& manager@.contains_key(old(self).spec_channel_id())
                    &&& {
                        let buf = manager@[old(self).spec_channel_id()];
                        match opt {
                            Some(v) => {
                                &&& old(self).spec_position() < buf.len()
                                &&& v@ == buf.subrange(
                                    old(self).spec_position() as int,
                                    buf.len() as int,
                                )
                                &&& final(self).spec_position() == buf.len()
                            },
                            None => {
                                &&& old(self).spec_position() >= buf.len()
                                &&& final(self).spec_position() == old(self).spec_position()
                            },
                        }
                    }
                },
                Err(e) => {
                    &&& e == CoreError::ChannelNotFound
                    &&& !manager@.contains_key(old(self).spec_channel_id())
                    &&& final(self).spec_position() == old(self).spec_position()
                },
            },
    {
        let message = match manager.get_message(self.channel_id.as_str()) {
            Ok(m) => m,
            Err(e) => {
                return Err(e);
            },
        };
        if self.position < message.len() {
            let tail = vstd::slice::slice_to_vec(
                vstd::slice::slice_subrange(message.as_slice(), self.position, message.len()),
            );
            self.position = message.len();
            Ok(Some(tail))
        } else {
            Ok(None)
        }
    }

    /// The current cursor position.
    pub fn get_position(&self) -> (r: usize)
        ensures
            r == self.spec_position(),
    {
        self.position
    }

    /// Rewind the cursor to the beginning of the channel's buffer.
    pub fn reset(&mut self)
        ensures
            final(self).spec_channel_id() == old(self).spec_channel_id(),
            final(self).spec_position() == 0,
    {
        self.position = 0;
    }
}

} // verus!
