//! The two kinds of channel endpoint, and the names of the regions that a
//! channel lives in.
//!
//! A [`Route`] has one producer and a [`Channel`] may have several; both
//! broadcast to every subscriber, and both work on the ring in the same way.

use vstd::prelude::*;
use vstd::string::StringExecFns;
use vstd::string::StringSliceAdditionalSpecFns;
use crate::buffer::IpcBuffer;
use crate::channel::{
    spec_full_prefix,
    spec_opened,
    spec_received,
    spec_sent,
    ChanInner,
    ChanShared,
    ChannelError,
    EndpointView,
    Mode,
};
use crate::chunk_storage::calc_chunk_size;
use crate::ring::spec_popcount;
use crate::shm::{
    lemma_lookup_found,
    spec_key,
    spec_lookup,
    spec_lookup_from,
    spec_unique_names,
    spec_unlink,
    RegionView,
    ShmSpace,
};
use crate::text::{decimal, spec_decimal};

verus! {

/// The name of a region of a channel: the prefix, the region's tag and the
/// channel's name.
pub open spec fn spec_region_name(full_prefix: Seq<char>, tag: Seq<char>, name: Seq<char>) -> Seq<char> {
    full_prefix + tag + name
}

/// The names of the 17 regions that the storage of a channel is cleared of:
/// the ring, the identity counter, the condition and the lock of the three
/// waiters (writer, reader, connection), and the chunk pools for the common
/// payload sizes.
pub open spec fn spec_storage_names(prefix: Seq<char>, name: Seq<char>) -> Seq<Seq<char>> {
    let fp = spec_full_prefix(prefix);
    seq![
        spec_region_name(fp, "QU_CONN__"@, name),
        spec_region_name(fp, "CA_CONN__"@, name),
        spec_region_name(fp, "WT_CONN__"@, name) + "_WAITER_COND_"@,
        spec_region_name(fp, "WT_CONN__"@, name) + "_WAITER_LOCK_"@,
        spec_region_name(fp, "RD_CONN__"@, name) + "_WAITER_COND_"@,
        spec_region_name(fp, "RD_CONN__"@, name) + "_WAITER_LOCK_"@,
        spec_region_name(fp, "CC_CONN__"@, name) + "_WAITER_COND_"@,
        spec_region_name(fp, "CC_CONN__"@, name) + "_WAITER_LOCK_"@,
        fp + "CH_CONN__"@ + spec_decimal(1040),
        fp + "CH_CONN__"@ + spec_decimal(1040),
        fp + "CH_CONN__"@ + spec_decimal(1040),
        fp + "CH_CONN__"@ + spec_decimal(1040),
        fp + "CH_CONN__"@ + spec_decimal(2064),
        fp + "CH_CONN__"@ + spec_decimal(4112),
        fp + "CH_CONN__"@ + spec_decimal(8208),
        fp + "CH_CONN__"@ + spec_decimal(16400),
        fp + "CH_CONN__"@ + spec_decimal(65552),
    ]
}

/// The regions after each of `names` was unlinked, in order, on a host that
/// limits names to `max` bytes.
pub open spec fn spec_unlink_all(regions: Seq<RegionView>, names: Seq<Seq<char>>, max: nat) -> Seq<RegionView>
    decreases names.len(),
{
    if names.len() == 0 {
        regions
    } else {
        spec_unlink(spec_unlink_all(regions, names.drop_last(), max), spec_key(names.last(), max))
    }
}

/// Builds the prefix as it stands before the names of a channel's regions.
pub fn full_prefix(prefix: &str) -> (fp: String)
    ensures
        fp@ == spec_full_prefix(prefix@),
{
    let mut fp = String::from_str(prefix);
    if !prefix.is_empty() {
        fp.append("_");
        proof {
            reveal_strlit("_");
            assert(fp@ =~= spec_full_prefix(prefix@));
        }
    }
    fp
}

/// Builds the name of a region of a channel from the prefix, the region's
/// tag and the channel's name.
pub fn region_name(full_prefix: &str, tag: &str, name: &str) -> (out: String)
    ensures
        out@ == spec_region_name(full_prefix@, tag@, name@),
{
    let mut out = String::from_str(full_prefix);
    out.append(tag);
    out.append(name);
    out
}

/// Builds the name of the region that holds the chunk pool for chunks of
/// `chunk_size` bytes.
pub fn chunk_shm_name(full_prefix: &str, chunk_size: usize) -> (out: String)
    ensures
        out@ == full_prefix@ + "CH_CONN__"@ + spec_decimal(chunk_size as nat),
{
    let mut out = String::from_str(full_prefix);
    out.append("CH_CONN__");
    let number = decimal(chunk_size);
    out.append(number.as_str());
    out
}

/// Builds the name of the region that holds a waiter's condition.
pub fn waiter_cond_name(waiter: &str) -> (out: String)
    ensures
        out@ == waiter@ + "_WAITER_COND_"@,
{
    let mut out = String::from_str(waiter);
    out.append("_WAITER_COND_");
    out
}

/// Builds the name of the region that holds a waiter's lock.
pub fn waiter_lock_name(waiter: &str) -> (out: String)
    ensures
        out@ == waiter@ + "_WAITER_LOCK_"@,
{
    let mut out = String::from_str(waiter);
    out.append("_WAITER_LOCK_");
    out
}

/// Builds the names of the regions that the storage of a channel is cleared
/// of; see [`spec_storage_names`].
pub fn storage_names(prefix: &str, name: &str) -> (names: Vec<String>)
    ensures
        names@.len() == 17,
        forall|i: int| 0 <= i < 17 ==> (#[trigger] names@[i])@ == spec_storage_names(prefix@, name@)[i],
{
    let fp = full_prefix(prefix);
    let mut names: Vec<String> = Vec::new();
    names.push(region_name(fp.as_str(), "QU_CONN__", name));
    names.push(region_name(fp.as_str(), "CA_CONN__", name));
    let wt = region_name(fp.as_str(), "WT_CONN__", name);
    names.push(waiter_cond_name(wt.as_str()));
    names.push(waiter_lock_name(wt.as_str()));
    let rd = region_name(fp.as_str(), "RD_CONN__", name);
    names.push(waiter_cond_name(rd.as_str()));
    names.push(waiter_lock_name(rd.as_str()));
    let cc = region_name(fp.as_str(), "CC_CONN__", name);
    names.push(waiter_cond_name(cc.as_str()));
    names.push(waiter_lock_name(cc.as_str()));
    names.push(chunk_shm_name(fp.as_str(), calc_chunk_size(128)));
    names.push(chunk_shm_name(fp.as_str(), calc_chunk_size(256)));
    names.push(chunk_shm_name(fp.as_str(), calc_chunk_size(512)));
    names.push(chunk_shm_name(fp.as_str(), calc_chunk_size(1024)));
    names.push(chunk_shm_name(fp.as_str(), calc_chunk_size(2048)));
    names.push(chunk_shm_name(fp.as_str(), calc_chunk_size(4096)));
    names.push(chunk_shm_name(fp.as_str(), calc_chunk_size(8192)));
    names.push(chunk_shm_name(fp.as_str(), calc_chunk_size(16384)));
    names.push(chunk_shm_name(fp.as_str(), calc_chunk_size(65536)));
    names
}

/// Unlinks each of `names` from the namespace.
pub fn unlink_all(space: &mut ShmSpace, names: &Vec<String>)
    requires
        old(space).inv(),
    ensures
        final(space).inv(),
        final(space).spec_name_max() == old(space).spec_name_max(),
        final(space)@ == spec_unlink_all(
            old(space)@,
            Seq::new(names@.len(), |i: int| names@[i]@),
            old(space).spec_name_max(),
        ),
{
    let ghost all = Seq::new(names@.len(), |i: int| names@[i]@);
    let n: usize = names.len();
    let mut i: usize = 0;
    assert(all.subrange(0, 0) =~= Seq::<Seq<char>>::empty());
    while i < n
        invariant
            i <= n,
            n == names@.len(),
            all == Seq::new(names@.len(), |i: int| names@[i]@),
            space.inv(),
            space.spec_name_max() == old(space).spec_name_max(),
            space@ == spec_unlink_all(old(space)@, all.subrange(0, i as int), old(space).spec_name_max()),
        decreases n - i,
    {
        space.unlink_by_name(names[i].as_str());
        proof {
            assert(all.subrange(0, i + 1).drop_last() =~= all.subrange(0, i as int));
            assert(all.subrange(0, i + 1).last() == names@[i as int]@);
        }
        i = i + 1;
    }
    assert(all.subrange(0, n as int) =~= all);
}

/// Unlinking never links: a name that is free stays free.
pub proof fn lemma_unlink_keeps_free(regions: Seq<RegionView>, gone: Seq<u8>, name: Seq<u8>, from: int)
    requires
        0 <= from,
        spec_lookup_from(regions, name, from) < 0,
    ensures
        spec_lookup_from(spec_unlink(regions, gone), name, from) < 0,
    decreases regions.len() - from,
{
    let at = spec_lookup(regions, gone);
    if at >= 0 {
        lemma_lookup_found(regions, gone, 0);
    }
    if from < regions.len() {
        lemma_unlink_keeps_free(regions, gone, name, from + 1);
    }
}

/// After the names were unlinked, each of them is free, and the names of the
/// linked regions are still unique.
pub proof fn lemma_unlink_all_frees(regions: Seq<RegionView>, names: Seq<Seq<char>>, max: nat)
    requires
        spec_unique_names(regions),
    ensures
        spec_unique_names(spec_unlink_all(regions, names, max)),
        forall|i: int|
            0 <= i < names.len() ==> spec_lookup(
                spec_unlink_all(regions, names, max),
                spec_key(#[trigger] names[i], max),
            ) < 0,
    decreases names.len(),
{
    if names.len() > 0 {
        let before = spec_unlink_all(regions, names.drop_last(), max);
        let last = spec_key(names.last(), max);
        lemma_unlink_all_frees(regions, names.drop_last(), max);
        crate::shm::lemma_unlink_frees(before, last);
        assert forall|i: int| 0 <= i < names.len() implies spec_lookup(
            spec_unlink_all(regions, names, max),
            spec_key(#[trigger] names[i], max),
        ) < 0 by {
            if i < names.len() - 1 {
                assert(names.drop_last()[i] == names[i]);
                lemma_unlink_keeps_free(before, last, spec_key(names[i], max), 0);
            }
        }
    }
}

/// Unlinking names that are free changes nothing.
pub proof fn lemma_unlink_all_free(regions: Seq<RegionView>, names: Seq<Seq<char>>, max: nat)
    requires
        forall|i: int|
            0 <= i < names.len() ==> spec_lookup(regions, spec_key(#[trigger] names[i], max))
                < 0,
    ensures
        spec_unlink_all(regions, names, max) == regions,
    decreases names.len(),
{
    if names.len() > 0 {
        assert forall|i: int| 0 <= i < names.drop_last().len() implies spec_lookup(
            regions,
            spec_key(#[trigger] names.drop_last()[i], max),
        ) < 0 by {
            assert(names.drop_last()[i] == names[i]);
        }
        lemma_unlink_all_free(regions, names.drop_last(), max);
        assert(spec_lookup(regions, spec_key(names[names.len() - 1], max)) < 0);
    }
}

/// Clearing the storage of a channel a second time is a no-op: after the
/// first clearing none of the channel's names is linked, so the second finds
/// nothing to unlink.
pub proof fn lemma_clear_storage_twice(regions: Seq<RegionView>, prefix: Seq<char>, name: Seq<char>, max: nat)
    requires
        spec_unique_names(regions),
    ensures
        ({
            let names = spec_storage_names(prefix, name);
            spec_unlink_all(spec_unlink_all(regions, names, max), names, max) == spec_unlink_all(
                regions,
                names,
                max,
            )
        }),
{
    let names = spec_storage_names(prefix, name);
    lemma_unlink_all_frees(regions, names, max);
    lemma_unlink_all_free(spec_unlink_all(regions, names, max), names, max);
}

/// Removes the storage of the channel `name` under `prefix`: each of its
/// regions is unlinked; see [`spec_storage_names`].
pub fn clear_channel_storage(space: &mut ShmSpace, prefix: &str, name: &str)
    requires
        old(space).inv(),
    ensures
        final(space).inv(),
        final(space).spec_name_max() == old(space).spec_name_max(),
            final(space)@ == spec_unlink_all(
                old(space)@,
                spec_storage_names(prefix@, name@),
                old(space).spec_name_max(),
            ),
        forall|i: int|
            0 <= i < 17 ==> spec_lookup(
                final(space)@,
                spec_key(#[trigger] spec_storage_names(prefix@, name@)[i], old(space).spec_name_max()),
            ) < 0,
{
    let names = storage_names(prefix, name);
    proof {
        assert(Seq::new(names@.len(), |i: int| names@[i]@) =~= spec_storage_names(prefix@, name@));
        lemma_unlink_all_frees(old(space)@, spec_storage_names(prefix@, name@), old(space).spec_name_max());
    }
    unlink_all(space, &names);
}

/// An endpoint of a channel with one producer and many subscribers.
pub struct Route {
    inner: ChanInner,
}

impl View for Route {
    type V = EndpointView;

    closed spec fn view(&self) -> EndpointView {
        self.inner@
    }
}

/// An endpoint of a channel with many producers and many subscribers.
pub struct Channel {
    inner: ChanInner,
}

impl View for Channel {
    type V = EndpointView;

    closed spec fn view(&self) -> EndpointView {
        self.inner@
    }
}

impl Route {
    /// Connects to the channel `name` as a producer or as a subscriber; see
    /// [`spec_opened`].
    pub fn connect(shared: &mut ChanShared, name: &str, mode: Mode) -> (opened: Result<Route, ChannelError>)
        requires
            old(shared).inv(),
        ensures
            final(shared).inv(),
            spec_opened(
                old(shared)@,
                final(shared)@,
                Seq::<char>::empty(),
                name@,
                mode,
                match opened {
                    Ok(ep) => Ok(ep@),
                    Err(e) => Err(e),
                },
            ),
    {
        proof {
            reveal_strlit("");
            assert(""@ =~= Seq::<char>::empty());
        }
        Route::connect_with_prefix(shared, "", name, mode)
    }

    /// Connects to the channel `name` under `prefix`; see [`spec_opened`].
    pub fn connect_with_prefix(shared: &mut ChanShared, prefix: &str, name: &str, mode: Mode) -> (opened:
        Result<Route, ChannelError>)
        requires
            old(shared).inv(),
        ensures
            final(shared).inv(),
            spec_opened(
                old(shared)@,
                final(shared)@,
                prefix@,
                name@,
                mode,
                match opened {
                    Ok(ep) => Ok(ep@),
                    Err(e) => Err(e),
                },
            ),
    {
        match ChanInner::open(shared, prefix, name, mode) {
            Ok(inner) => Ok(Route { inner }),
            Err(e) => Err(e),
        }
    }

    /// Leaves the channel: a producer is counted out, a subscriber gives its
    /// bit back.
    pub fn disconnect(self, shared: &mut ChanShared)
        requires
            old(shared).inv(),
        ensures
            final(shared).inv(),
            final(shared)@ == crate::channel::spec_close(old(shared)@, self@.mode, self@.conn_id),
    {
        self.inner.close(shared);
    }

    /// The channel's name.
    pub fn name(&self) -> (name: &str)
        ensures
            name@ == self@.name,
    {
        self.inner.name()
    }

    /// Whether the endpoint sends or receives.
    pub fn mode(&self) -> (mode: Mode)
        ensures
            mode == self@.mode,
    {
        self.inner.mode()
    }

    /// The subscriber bit of a receiver; 0 for a sender.
    pub fn conn_id(&self) -> (conn_id: u32)
        ensures
            conn_id == self@.conn_id,
    {
        self.inner.conn_id()
    }

    /// The endpoint's identity.
    pub fn cc_id(&self) -> (cc_id: u32)
        ensures
            cc_id == self@.cc_id,
    {
        self.inner.cc_id()
    }

    /// The number of connected subscribers.
    pub fn recv_count(&self, shared: &ChanShared) -> (n: usize)
        ensures
            n == spec_popcount(shared@.ring.connections),
    {
        self.inner.recv_count(shared)
    }

    /// Whether at least `count` subscribers are connected.
    pub fn wait_for_recv(&self, shared: &ChanShared, count: usize) -> (enough: bool)
        ensures
            enough == (spec_popcount(shared@.ring.connections) >= count),
    {
        self.inner.wait_for_recv(shared, count)
    }

    /// Sends `data` to every connected subscriber; see [`spec_sent`].
    pub fn send(&mut self, shared: &mut ChanShared, data: &[u8]) -> (sent: Result<bool, ChannelError>)
        requires
            old(shared).inv(),
        ensures
            final(shared).inv(),
            final(self)@ == old(self)@,
            spec_sent(old(shared)@, final(shared)@, old(self)@, data@, sent),
    {
        self.inner.send(shared, data)
    }

    /// Sends the bytes of `buf`; see [`spec_sent`].
    pub fn send_buf(&mut self, shared: &mut ChanShared, buf: &IpcBuffer) -> (sent: Result<bool, ChannelError>)
        requires
            old(shared).inv(),
        ensures
            final(shared).inv(),
            final(self)@ == old(self)@,
            spec_sent(old(shared)@, final(shared)@, old(self)@, buf@, sent),
    {
        self.inner.send(shared, buf.data())
    }

    /// Sends the bytes of `s` followed by a zero byte; see [`spec_sent`].
    pub fn send_str(&mut self, shared: &mut ChanShared, s: &str) -> (sent: Result<bool, ChannelError>)
        requires
            old(shared).inv(),
        ensures
            final(shared).inv(),
            final(self)@ == old(self)@,
            spec_sent(old(shared)@, final(shared)@, old(self)@, s.spec_bytes() + seq![0u8], sent),
    {
        let buf = IpcBuffer::from_str(s);
        self.inner.send(shared, buf.data())
    }

    /// Sends without waiting; see [`spec_sent`].
    pub fn try_send(&mut self, shared: &mut ChanShared, data: &[u8]) -> (sent: Result<bool, ChannelError>)
        requires
            old(shared).inv(),
        ensures
            final(shared).inv(),
            final(self)@ == old(self)@,
            spec_sent(old(shared)@, final(shared)@, old(self)@, data@, sent),
    {
        self.inner.try_send(shared, data)
    }

    /// Receives the next message; see [`spec_received`].
    pub fn recv(&mut self, shared: &mut ChanShared) -> (received: Result<IpcBuffer, ChannelError>)
        requires
            old(shared).inv(),
        ensures
            final(shared).inv(),
            spec_received(
                old(shared)@,
                final(shared)@,
                old(self)@,
                final(self)@,
                match received {
                    Ok(buf) => Ok(buf@),
                    Err(e) => Err(e),
                },
            ),
    {
        self.inner.recv(shared)
    }

    /// Receives without waiting; see [`spec_received`].
    pub fn try_recv(&mut self, shared: &mut ChanShared) -> (received: Result<IpcBuffer, ChannelError>)
        requires
            old(shared).inv(),
        ensures
            final(shared).inv(),
            spec_received(
                old(shared)@,
                final(shared)@,
                old(self)@,
                final(self)@,
                match received {
                    Ok(buf) => Ok(buf@),
                    Err(e) => Err(e),
                },
            ),
    {
        self.inner.try_recv(shared)
    }

    /// Removes the storage of the channel `name`.
    pub fn clear_storage(space: &mut ShmSpace, name: &str)
        requires
            old(space).inv(),
        ensures
            final(space).inv(),
            final(space).spec_name_max() == old(space).spec_name_max(),
            final(space)@ == spec_unlink_all(
                old(space)@,
                spec_storage_names(Seq::<char>::empty(), name@),
                old(space).spec_name_max(),
            ),
    {
        proof {
            reveal_strlit("");
            assert(""@ =~= Seq::<char>::empty());
        }
        clear_channel_storage(space, "", name);
    }

    /// Removes the storage of the channel `name` under `prefix`.
    pub fn clear_storage_with_prefix(space: &mut ShmSpace, prefix: &str, name: &str)
        requires
            old(space).inv(),
        ensures
            final(space).inv(),
            final(space).spec_name_max() == old(space).spec_name_max(),
            final(space)@ == spec_unlink_all(
                old(space)@,
                spec_storage_names(prefix@, name@),
                old(space).spec_name_max(),
            ),
    {
        clear_channel_storage(space, prefix, name);
    }
}

impl Channel {
    /// Connects to the channel `name` as a producer or as a subscriber; see
    /// [`spec_opened`].
    pub fn connect(shared: &mut ChanShared, name: &str, mode: Mode) -> (opened: Result<Channel, ChannelError>)
        requires
            old(shared).inv(),
        ensures
            final(shared).inv(),
            spec_opened(
                old(shared)@,
                final(shared)@,
                Seq::<char>::empty(),
                name@,
                mode,
                match opened {
                    Ok(ep) => Ok(ep@),
                    Err(e) => Err(e),
                },
            ),
    {
        proof {
            reveal_strlit("");
            assert(""@ =~= Seq::<char>::empty());
        }
        Channel::connect_with_prefix(shared, "", name, mode)
    }

    /// Connects to the channel `name` under `prefix`; see [`spec_opened`].
    pub fn connect_with_prefix(shared: &mut ChanShared, prefix: &str, name: &str, mode: Mode) -> (opened:
        Result<Channel, ChannelError>)
        requires
            old(shared).inv(),
        ensures
            final(shared).inv(),
            spec_opened(
                old(shared)@,
                final(shared)@,
                prefix@,
                name@,
                mode,
                match opened {
                    Ok(ep) => Ok(ep@),
                    Err(e) => Err(e),
                },
            ),
    {
        match ChanInner::open(shared, prefix, name, mode) {
            Ok(inner) => Ok(Channel { inner }),
            Err(e) => Err(e),
        }
    }

    /// Leaves the channel: a producer is counted out, a subscriber gives its
    /// bit back.
    pub fn disconnect(self, shared: &mut ChanShared)
        requires
            old(shared).inv(),
        ensures
            final(shared).inv(),
            final(shared)@ == crate::channel::spec_close(old(shared)@, self@.mode, self@.conn_id),
    {
        self.inner.close(shared);
    }

    /// The channel's name.
    pub fn name(&self) -> (name: &str)
        ensures
            name@ == self@.name,
    {
        self.inner.name()
    }

    /// Whether the endpoint sends or receives.
    pub fn mode(&self) -> (mode: Mode)
        ensures
            mode == self@.mode,
    {
        self.inner.mode()
    }

    /// The subscriber bit of a receiver; 0 for a sender.
    pub fn conn_id(&self) -> (conn_id: u32)
        ensures
            conn_id == self@.conn_id,
    {
        self.inner.conn_id()
    }

    /// The endpoint's identity.
    pub fn cc_id(&self) -> (cc_id: u32)
        ensures
            cc_id == self@.cc_id,
    {
        self.inner.cc_id()
    }

    /// The number of connected subscribers.
    pub fn recv_count(&self, shared: &ChanShared) -> (n: usize)
        ensures
            n == spec_popcount(shared@.ring.connections),
    {
        self.inner.recv_count(shared)
    }

    /// Whether at least `count` subscribers are connected.
    pub fn wait_for_recv(&self, shared: &ChanShared, count: usize) -> (enough: bool)
        ensures
            enough == (spec_popcount(shared@.ring.connections) >= count),
    {
        self.inner.wait_for_recv(shared, count)
    }

    /// Sends `data` to every connected subscriber; see [`spec_sent`].
    pub fn send(&mut self, shared: &mut ChanShared, data: &[u8]) -> (sent: Result<bool, ChannelError>)
        requires
            old(shared).inv(),
        ensures
            final(shared).inv(),
            final(self)@ == old(self)@,
            spec_sent(old(shared)@, final(shared)@, old(self)@, data@, sent),
    {
        self.inner.send(shared, data)
    }

    /// Sends the bytes of `buf`; see [`spec_sent`].
    pub fn send_buf(&mut self, shared: &mut ChanShared, buf: &IpcBuffer) -> (sent: Result<bool, ChannelError>)
        requires
            old(shared).inv(),
        ensures
            final(shared).inv(),
            final(self)@ == old(self)@,
            spec_sent(old(shared)@, final(shared)@, old(self)@, buf@, sent),
    {
        self.inner.send(shared, buf.data())
    }

    /// Sends the bytes of `s` followed by a zero byte; see [`spec_sent`].
    pub fn send_str(&mut self, shared: &mut ChanShared, s: &str) -> (sent: Result<bool, ChannelError>)
        requires
            old(shared).inv(),
        ensures
            final(shared).inv(),
            final(self)@ == old(self)@,
            spec_sent(old(shared)@, final(shared)@, old(self)@, s.spec_bytes() + seq![0u8], sent),
    {
        let buf = IpcBuffer::from_str(s);
        self.inner.send(shared, buf.data())
    }

    /// Sends without waiting; see [`spec_sent`].
    pub fn try_send(&mut self, shared: &mut ChanShared, data: &[u8]) -> (sent: Result<bool, ChannelError>)
        requires
            old(shared).inv(),
        ensures
            final(shared).inv(),
            final(self)@ == old(self)@,
            spec_sent(old(shared)@, final(shared)@, old(self)@, data@, sent),
    {
        self.inner.try_send(shared, data)
    }

    /// Receives the next message; see [`spec_received`].
    pub fn recv(&mut self, shared: &mut ChanShared) -> (received: Result<IpcBuffer, ChannelError>)
        requires
            old(shared).inv(),
        ensures
            final(shared).inv(),
            spec_received(
                old(shared)@,
                final(shared)@,
                old(self)@,
                final(self)@,
                match received {
                    Ok(buf) => Ok(buf@),
                    Err(e) => Err(e),
                },
            ),
    {
        self.inner.recv(shared)
    }

    /// Receives without waiting; see [`spec_received`].
    pub fn try_recv(&mut self, shared: &mut ChanShared) -> (received: Result<IpcBuffer, ChannelError>)
        requires
            old(shared).inv(),
        ensures
            final(shared).inv(),
            spec_received(
                old(shared)@,
                final(shared)@,
                old(self)@,
                final(self)@,
                match received {
                    Ok(buf) => Ok(buf@),
                    Err(e) => Err(e),
                },
            ),
    {
        self.inner.try_recv(shared)
    }

    /// Removes the storage of the channel `name`.
    pub fn clear_storage(space: &mut ShmSpace, name: &str)
        requires
            old(space).inv(),
        ensures
            final(space).inv(),
            final(space).spec_name_max() == old(space).spec_name_max(),
            final(space)@ == spec_unlink_all(
                old(space)@,
                spec_storage_names(Seq::<char>::empty(), name@),
                old(space).spec_name_max(),
            ),
    {
        proof {
            reveal_strlit("");
            assert(""@ =~= Seq::<char>::empty());
        }
        clear_channel_storage(space, "", name);
    }

    /// Removes the storage of the channel `name` under `prefix`.
    pub fn clear_storage_with_prefix(space: &mut ShmSpace, prefix: &str, name: &str)
        requires
            old(space).inv(),
        ensures
            final(space).inv(),
            final(space).spec_name_max() == old(space).spec_name_max(),
            final(space)@ == spec_unlink_all(
                old(space)@,
                spec_storage_names(prefix@, name@),
                old(space).spec_name_max(),
            ),
    {
        clear_channel_storage(space, prefix, name);
    }
}

} // verus!
