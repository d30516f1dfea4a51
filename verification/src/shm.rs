//! Named regions and their lifecycle: the namespace of a host, the reference
//! count that a region's users share, and the cache by which one process maps
//! each name once.
//!
//! A region lives in the namespace from its creation until it is unlinked.
//! Unlinking takes the name away; users that hold the region keep it, and the
//! next creation under the name makes a new region.

use vstd::prelude::*;
use vstd::string::StringSliceAdditionalSpecFns;
use vstd::utf8::encode_utf8;
use crate::shm_name::{make_shm_name_bounded, spec_shm_name};
use crate::text::bytes_eq;

verus! {

/// How a region is acquired.
#[derive(Debug, Clone, Copy, PartialEq, Eq, Structural)]
pub enum ShmOpenMode {
    /// Create the region; fail if the name is taken.
    Create,
    /// Open the region; fail if the name is free.
    Open,
    /// Open the region if the name is taken, create it if not.
    CreateOrOpen,
}

/// Why a region could not be acquired.
#[derive(Debug, Clone, Copy, PartialEq, Eq, Structural)]
pub enum ShmError {
    /// The name is empty.
    EmptyName,
    /// The size is zero.
    ZeroSize,
    /// The region was to be created and its name is taken.
    AlreadyExists,
    /// The region was to be opened and its name is free.
    NotFound,
}

/// Largest size of a region's user bytes.
pub const MAX_USER_SIZE: usize = usize::MAX - 7;

/// The mapped size of a region: the user bytes rounded up to a multiple of 4,
/// and 4 bytes for the shared reference count.
pub open spec fn spec_calc_size(user_size: int) -> int {
    ((user_size + 3) / 4) * 4 + 4
}

/// Computes the mapped size of a region of `user_size` user bytes.
pub fn calc_size(user_size: usize) -> (size: usize)
    requires
        0 < user_size <= MAX_USER_SIZE,
    ensures
        size == spec_calc_size(user_size as int),
        size % 4 == 0,
        user_size + 4 <= size < user_size + 8,
{
    ((user_size - 1) / 4 + 1) * 4 + 4
}

/// What a region holds.
pub struct RegionView {
    /// The name under which the region was created, as the system takes
    /// it: with its leading slash, and shortened where names are limited.
    pub name: Seq<u8>,
    /// Whether the name still leads to the region.
    pub linked: bool,
    /// The shared count of the region's users.
    pub ref_count: i32,
    /// The user bytes.
    pub bytes: Seq<u8>,
}

/// The name of a region as the system takes it, where names are limited to
/// `max` bytes (0: no limit): the bytes of `name` with a leading slash, and
/// shortened if they are more than `max`.
pub open spec fn spec_key(name: Seq<char>, max: nat) -> Seq<u8> {
    spec_shm_name(encode_utf8(name), max)
}

/// The linked region with the system name `name` at or after `from`, or -1.
pub open spec fn spec_lookup_from(regions: Seq<RegionView>, name: Seq<u8>, from: int) -> int
    decreases regions.len() - from,
{
    if from < 0 || from >= regions.len() {
        -1
    } else if regions[from].linked && regions[from].name == name {
        from
    } else {
        spec_lookup_from(regions, name, from + 1)
    }
}

/// The linked region with the system name `name`, or -1.
pub open spec fn spec_lookup(regions: Seq<RegionView>, name: Seq<u8>) -> int {
    spec_lookup_from(regions, name, 0)
}

/// The regions after the name `name` was unlinked.
pub open spec fn spec_unlink(regions: Seq<RegionView>, name: Seq<u8>) -> Seq<RegionView> {
    let at = spec_lookup(regions, name);
    if at < 0 {
        regions
    } else {
        regions.update(at, RegionView { linked: false, ..regions[at] })
    }
}

/// The error of acquiring `size` bytes under `name` and `mode`, if any.
pub open spec fn spec_acquire_error(
    regions: Seq<RegionView>,
    name: Seq<char>,
    size: nat,
    mode: ShmOpenMode,
    max: nat,
) -> Option<ShmError> {
    let taken = spec_lookup(regions, spec_key(name, max)) >= 0;
    if name.len() == 0 {
        Some(ShmError::EmptyName)
    } else if size == 0 {
        Some(ShmError::ZeroSize)
    } else if mode == ShmOpenMode::Create && taken {
        Some(ShmError::AlreadyExists)
    } else if mode == ShmOpenMode::Open && !taken {
        Some(ShmError::NotFound)
    } else {
        None
    }
}

/// The regions after `size` bytes were acquired under `name` and `mode`: a
/// region that is created is appended, zero-filled and with one user; one
/// that is opened has one user more. An acquisition that fails changes
/// nothing.
pub open spec fn spec_acquire(
    regions: Seq<RegionView>,
    name: Seq<char>,
    size: nat,
    mode: ShmOpenMode,
    max: nat,
) -> Seq<RegionView> {
    let posix = spec_key(name, max);
    let at = spec_lookup(regions, posix);
    if spec_acquire_error(regions, name, size, mode, max).is_some() {
        regions
    } else if at < 0 {
        regions.push(
            RegionView {
                name: posix,
                linked: true,
                ref_count: 1,
                bytes: Seq::new(size, |i: int| 0u8),
            },
        )
    } else {
        regions.update(
            at,
            RegionView { ref_count: regions[at].ref_count.wrapping_add(1), ..regions[at] },
        )
    }
}

/// The regions after a user gave up the region at `index`: the count goes
/// down by one, and if the user was the last, the region's name is unlinked.
pub open spec fn spec_release(regions: Seq<RegionView>, index: int) -> Seq<RegionView> {
    let prev = regions[index].ref_count;
    let counted = regions.update(
        index,
        RegionView { ref_count: prev.wrapping_sub(1), ..regions[index] },
    );
    if prev <= 1 {
        spec_unlink(counted, regions[index].name)
    } else {
        counted
    }
}

/// One region of the namespace.
pub struct Region {
    name: Vec<u8>,
    linked: bool,
    ref_count: i32,
    bytes: Vec<u8>,
}

impl View for Region {
    type V = RegionView;

    closed spec fn view(&self) -> RegionView {
        RegionView {
            name: self.name@,
            linked: self.linked,
            ref_count: self.ref_count,
            bytes: self.bytes@,
        }
    }
}

/// A user's hold on a region.
pub struct ShmHandle {
    index: usize,
    user_size: usize,
    prev_ref: i32,
}

impl ShmHandle {
    /// The place of the region in the namespace.
    pub closed spec fn spec_index(&self) -> int {
        self.index as int
    }

    /// The size that the user asked for.
    pub closed spec fn spec_user_size(&self) -> nat {
        self.user_size as nat
    }

    /// The count of the region's users before this one.
    pub closed spec fn spec_prev_ref_count(&self) -> i32 {
        self.prev_ref
    }

    /// The place of the region in the namespace.
    pub fn index(&self) -> (index: usize)
        ensures
            index == self.spec_index(),
    {
        self.index
    }

    /// The size that the user asked for.
    pub fn user_size(&self) -> (size: usize)
        ensures
            size == self.spec_user_size(),
    {
        self.user_size
    }

    /// The size of the mapping: the user's size rounded up to a multiple of
    /// 4, and 4 bytes for the shared count.
    pub fn mapped_size(&self) -> (size: usize)
        requires
            0 < self.spec_user_size() <= MAX_USER_SIZE,
        ensures
            size == spec_calc_size(self.spec_user_size() as int),
    {
        calc_size(self.user_size)
    }

    /// The count of the region's users before this one; 0 for the creator.
    pub fn prev_ref_count(&self) -> (prev: i32)
        ensures
            prev == self.spec_prev_ref_count(),
    {
        self.prev_ref
    }
}

/// The named regions of a host.
pub struct ShmSpace {
    regions: Vec<Region>,
    name_max: usize,
}

impl View for ShmSpace {
    type V = Seq<RegionView>;

    closed spec fn view(&self) -> Seq<RegionView> {
        Seq::new(self.regions@.len(), |i: int| self.regions@[i]@)
    }
}

impl ShmSpace {
    /// Among the linked regions every name occurs once.
    pub open spec fn inv(&self) -> bool {
        spec_unique_names(self@)
    }

    /// The limit on the length of a name on the host; 0 where there is none.
    pub closed spec fn spec_name_max(&self) -> nat {
        self.name_max as nat
    }

    /// A namespace without regions, on a host that sets no limit on names.
    pub fn new() -> (space: ShmSpace)
        ensures
            space@.len() == 0,
            space.spec_name_max() == 0,
            space.inv(),
    {
        ShmSpace { regions: Vec::new(), name_max: 0 }
    }

    /// A namespace without regions, on a host that limits names to
    /// `name_max` bytes (0: no limit).
    pub fn with_name_max(name_max: usize) -> (space: ShmSpace)
        ensures
            space@.len() == 0,
            space.spec_name_max() == name_max,
            space.inv(),
    {
        ShmSpace { regions: Vec::new(), name_max }
    }

    /// The limit on the length of a name on the host; 0 where there is none.
    pub fn name_max(&self) -> (max: usize)
        ensures
            max == self.spec_name_max(),
    {
        self.name_max
    }

    /// The number of regions that were ever created.
    pub fn len(&self) -> (n: usize)
        ensures
            n == self@.len(),
    {
        self.regions.len()
    }

    /// The place of the linked region with the POSIX name `posix`.
    pub fn lookup(&self, posix: &Vec<u8>) -> (at: Option<usize>)
        ensures
            match at {
                Some(i) => i == spec_lookup(self@, posix@) && i < self@.len(),
                None => spec_lookup(self@, posix@) == -1,
            },
    {
        let n: usize = self.regions.len();
        let mut i: usize = 0;
        while i < n
            invariant
                i <= n,
                n == self.regions@.len(),
                spec_lookup(self@, posix@) == spec_lookup_from(self@, posix@, i as int),
            decreases n - i,
        {
            assert(self@[i as int] == self.regions@[i as int]@);
            if self.regions[i].linked && bytes_eq(self.regions[i].name.as_slice(), posix.as_slice()) {
                return Some(i);
            }
            i = i + 1;
        }
        None
    }

    /// Whether a region is linked under `name`.
    pub fn is_linked(&self, name: &str) -> (yes: bool)
        ensures
            yes == (spec_lookup(self@, spec_key(name@, self.spec_name_max())) >= 0),
    {
        let posix = make_shm_name_bounded(name.as_bytes(), self.name_max);
        self.lookup(&posix).is_some()
    }

    /// Acquires the region `name` of `size` user bytes; see [`spec_acquire`]
    /// and [`spec_acquire_error`].
    pub fn acquire(&mut self, name: &str, size: usize, mode: ShmOpenMode) -> (acquired: Result<
        ShmHandle,
        ShmError,
    >)
        requires
            old(self).inv(),
        ensures
            final(self).inv(),
            final(self).spec_name_max() == old(self).spec_name_max(),
            final(self)@ == spec_acquire(old(self)@, name@, size as nat, mode, old(self).spec_name_max()),
            match acquired {
                Ok(h) => {
                    let at = spec_lookup(old(self)@, spec_key(name@, old(self).spec_name_max()));
                    &&& spec_acquire_error(old(self)@, name@, size as nat, mode, old(self).spec_name_max()).is_none()
                    &&& h.spec_user_size() == size
                    &&& h.spec_index() == if at < 0 {
                        old(self)@.len() as int
                    } else {
                        at
                    }
                    &&& h.spec_prev_ref_count() == if at < 0 {
                        0
                    } else {
                        old(self)@[at].ref_count
                    }
                    &&& h.spec_index() == spec_lookup(final(self)@, spec_key(name@, old(self).spec_name_max()))
                },
                Err(e) => spec_acquire_error(old(self)@, name@, size as nat, mode, old(self).spec_name_max()) == Some(e),
            },
    {
        proof {
            lemma_acquire_keeps_unique(old(self)@, name@, size as nat, mode, old(self).spec_name_max());
        }
        if name.is_empty() {
            return Err(ShmError::EmptyName);
        }
        if size == 0 {
            return Err(ShmError::ZeroSize);
        }
        let posix = make_shm_name_bounded(name.as_bytes(), self.name_max);
        match self.lookup(&posix) {
            Some(at) => {
                if mode == ShmOpenMode::Create {
                    return Err(ShmError::AlreadyExists);
                }
                assert(self@[at as int] == self.regions@[at as int]@);
                let prev: i32 = self.regions[at].ref_count;
                self.regions[at].ref_count = prev.wrapping_add(1);
                proof {
                    let want = spec_acquire(old(self)@, name@, size as nat, mode, old(self).spec_name_max());
                    assert(self@ =~= want);
                    lemma_lookup_update(old(self)@, posix@, at as int, self@[at as int], 0);
                }
                Ok(ShmHandle { index: at, user_size: size, prev_ref: prev })
            },
            None => {
                if mode == ShmOpenMode::Open {
                    return Err(ShmError::NotFound);
                }
                let mut bytes: Vec<u8> = Vec::new();
                bytes.resize(size, 0u8);
                let at: usize = self.regions.len();
                let region = Region { name: posix, linked: true, ref_count: 1, bytes };
                self.regions.push(region);
                proof {
                    let want = spec_acquire(old(self)@, name@, size as nat, mode, old(self).spec_name_max());
                    assert(self@[at as int] == self.regions@[at as int]@);
                    assert(self@[at as int].bytes =~= Seq::new(size as nat, |i: int| 0u8));
                    assert(self@ =~= want);
                    lemma_lookup_push(old(self)@, self@[at as int], 0);
                }
                Ok(ShmHandle { index: at, user_size: size, prev_ref: 0 })
            },
        }
    }

    /// Unlinks the region `name`: the name is free again. Where no region is
    /// linked under the name, nothing changes.
    pub fn unlink_by_name(&mut self, name: &str)
        requires
            old(self).inv(),
        ensures
            final(self).inv(),
            final(self).spec_name_max() == old(self).spec_name_max(),
            final(self)@ == spec_unlink(old(self)@, spec_key(name@, old(self).spec_name_max())),
            spec_lookup(final(self)@, spec_key(name@, old(self).spec_name_max())) == -1,
    {
        let posix = make_shm_name_bounded(name.as_bytes(), self.name_max);
        self.unlink_posix(&posix);
    }

    /// Unlinks the region with the POSIX name `posix`.
    pub fn unlink_posix(&mut self, posix: &Vec<u8>)
        requires
            old(self).inv(),
        ensures
            final(self).inv(),
            final(self).spec_name_max() == old(self).spec_name_max(),
            final(self)@ == spec_unlink(old(self)@, posix@),
            spec_lookup(final(self)@, posix@) == -1,
    {
        proof {
            lemma_unlink_frees(old(self)@, posix@);
        }
        match self.lookup(posix) {
            Some(at) => {
                assert(self@[at as int] == self.regions@[at as int]@);
                self.regions[at].linked = false;
                assert(self@ =~= spec_unlink(old(self)@, posix@));
            },
            None => {},
        }
    }

    /// Unlinks the name of the region behind `handle`: the region that is
    /// linked under that name now, which is the handle's own unless that was
    /// unlinked before and the name taken anew.
    pub fn unlink(&mut self, handle: &ShmHandle)
        requires
            old(self).inv(),
            handle.spec_index() < old(self)@.len(),
        ensures
            final(self).inv(),
            final(self).spec_name_max() == old(self).spec_name_max(),
            final(self)@ == spec_unlink(old(self)@, old(self)@[handle.spec_index()].name),
    {
        assert(self@[handle.index as int] == self.regions@[handle.index as int]@);
        let name: Vec<u8> = self.regions[handle.index].name.clone();
        self.unlink_posix(&name);
    }

    /// The system name of the region behind `handle`.
    pub fn name(&self, handle: &ShmHandle) -> (name: &Vec<u8>)
        requires
            handle.spec_index() < self@.len(),
        ensures
            name@ == self@[handle.spec_index()].name,
    {
        assert(self@[handle.index as int] == self.regions@[handle.index as int]@);
        &self.regions[handle.index].name
    }

    /// Removes the storage of the region `name`; the same as unlinking it.
    pub fn clear_storage(&mut self, name: &str)
        requires
            old(self).inv(),
        ensures
            final(self).inv(),
            final(self).spec_name_max() == old(self).spec_name_max(),
            final(self)@ == spec_unlink(old(self)@, spec_key(name@, old(self).spec_name_max())),
            spec_lookup(final(self)@, spec_key(name@, old(self).spec_name_max())) == -1,
    {
        self.unlink_by_name(name);
    }

    /// Gives up a hold on a region: the count of its users goes down by one,
    /// and after the last user the region's name is unlinked.
    pub fn release(&mut self, handle: ShmHandle)
        requires
            old(self).inv(),
            handle.spec_index() < old(self)@.len(),
        ensures
            final(self).inv(),
            final(self).spec_name_max() == old(self).spec_name_max(),
            final(self)@ == spec_release(old(self)@, handle.spec_index()),
    {
        let at: usize = handle.index;
        assert(self@[at as int] == self.regions@[at as int]@);
        let prev: i32 = self.regions[at].ref_count;
        self.regions[at].ref_count = prev.wrapping_sub(1);
        assert(self@ =~= old(self)@.update(
            at as int,
            RegionView { ref_count: prev.wrapping_sub(1), ..old(self)@[at as int] },
        ));
        assert(spec_unique_names(self@)) by {
            assert forall|i: int, j: int|
                0 <= i < self@.len() && 0 <= j < self@.len() && i != j && (#[trigger] self@[i]).linked
                    && (#[trigger] self@[j]).linked implies self@[i].name != self@[j].name by {
                assert(old(self)@[i].linked && old(self)@[j].linked);
            }
        }
        if prev <= 1 {
            let name: Vec<u8> = self.regions[at].name.clone();
            self.unlink_posix(&name);
        }
    }

    /// The current count of users of the region behind `handle`.
    pub fn ref_count(&self, handle: &ShmHandle) -> (count: i32)
        requires
            handle.spec_index() < self@.len(),
        ensures
            count == self@[handle.spec_index()].ref_count,
    {
        assert(self@[handle.index as int] == self.regions@[handle.index as int]@);
        self.regions[handle.index].ref_count
    }

    /// The user bytes of the region behind `handle`.
    pub fn read(&self, handle: &ShmHandle) -> (bytes: &Vec<u8>)
        requires
            handle.spec_index() < self@.len(),
        ensures
            bytes@ == self@[handle.spec_index()].bytes,
    {
        assert(self@[handle.index as int] == self.regions@[handle.index as int]@);
        &self.regions[handle.index].bytes
    }

    /// Copies `buf` to the start of the region behind `handle`. Returns
    /// whether it fit; a buffer that does not fit changes nothing.
    pub fn write(&mut self, handle: &ShmHandle, buf: &[u8]) -> (fit: bool)
        requires
            old(self).inv(),
            handle.spec_index() < old(self)@.len(),
        ensures
            final(self).inv(),
            final(self).spec_name_max() == old(self).spec_name_max(),
            fit == (buf@.len() <= old(self)@[handle.spec_index()].bytes.len()),
            final(self)@ == if fit {
                old(self)@.update(
                    handle.spec_index(),
                    RegionView {
                        bytes: buf@ + old(self)@[handle.spec_index()].bytes.subrange(
                            buf@.len() as int,
                            old(self)@[handle.spec_index()].bytes.len() as int,
                        ),
                        ..old(self)@[handle.spec_index()]
                    },
                )
            } else {
                old(self)@
            },
    {
        let at: usize = handle.index;
        assert(self@[at as int] == self.regions@[at as int]@);
        let n: usize = buf.len();
        if n > self.regions[at].bytes.len() {
            return false;
        }
        let mut i: usize = 0;
        while i < n
            invariant
                i <= n,
                n == buf@.len(),
                at < self.regions@.len(),
                self.name_max == old(self).name_max,
                self.regions@.len() == old(self).regions@.len(),
                n <= self.regions@[at as int].bytes@.len(),
                self.regions@[at as int].bytes@.len() == old(self).regions@[at as int].bytes@.len(),
                self.regions@[at as int].name == old(self).regions@[at as int].name,
                self.regions@[at as int].linked == old(self).regions@[at as int].linked,
                self.regions@[at as int].ref_count == old(self).regions@[at as int].ref_count,
                forall|j: int|
                    0 <= j < self.regions@.len() && j != at ==> self.regions@[j] == old(self).regions@[j],
                forall|j: int| 0 <= j < i ==> self.regions@[at as int].bytes@[j] == buf@[j],
                forall|j: int|
                    i <= j < self.regions@[at as int].bytes@.len() ==> self.regions@[at as int].bytes@[j]
                        == old(self).regions@[at as int].bytes@[j],
            decreases n - i,
        {
            self.regions[at].bytes[i] = buf[i];
            i = i + 1;
        }
        proof {
            let want = old(self)@.update(
                at as int,
                RegionView {
                    bytes: buf@ + old(self)@[at as int].bytes.subrange(
                        n as int,
                        old(self)@[at as int].bytes.len() as int,
                    ),
                    ..old(self)@[at as int]
                },
            );
            assert forall|j: int| 0 <= j < self@.len() implies #[trigger] self@[j] == want[j] by {
                if j == at {
                    assert(self@[j].bytes =~= want[j].bytes);
                }
            }
            assert(self@ =~= want);
            assert forall|i: int, j: int|
                0 <= i < self@.len() && 0 <= j < self@.len() && i != j && (#[trigger] self@[i]).linked
                    && (#[trigger] self@[j]).linked implies self@[i].name != self@[j].name by {
                assert(old(self)@[i].linked && old(self)@[j].linked);
            }
        }
        true
    }
}

/// A change to a region that keeps its name and its link changes no lookup.
pub proof fn lemma_lookup_update(regions: Seq<RegionView>, name: Seq<u8>, at: int, region: RegionView, from: int)
    requires
        0 <= at < regions.len(),
        0 <= from,
        region.name == regions[at].name,
        region.linked == regions[at].linked,
    ensures
        spec_lookup_from(regions.update(at, region), name, from) == spec_lookup_from(
            regions,
            name,
            from,
        ),
    decreases regions.len() - from,
{
    if from < regions.len() {
        lemma_lookup_update(regions, name, at, region, from + 1);
    }
}

/// A linked region appended under a name that was free is found at the end.
pub proof fn lemma_lookup_push(regions: Seq<RegionView>, region: RegionView, from: int)
    requires
        0 <= from <= regions.len(),
        region.linked,
        spec_lookup_from(regions, region.name, from) < 0,
    ensures
        spec_lookup_from(regions.push(region), region.name, from) == regions.len(),
    decreases regions.len() - from,
{
    if from < regions.len() {
        lemma_lookup_push(regions, region, from + 1);
    }
}

/// A lookup that finds a region finds a linked one of that name.
pub proof fn lemma_lookup_found(regions: Seq<RegionView>, name: Seq<u8>, from: int)
    requires
        0 <= from,
        spec_lookup_from(regions, name, from) >= 0,
    ensures
        from <= spec_lookup_from(regions, name, from) < regions.len(),
        regions[spec_lookup_from(regions, name, from)].linked,
        regions[spec_lookup_from(regions, name, from)].name == name,
    decreases regions.len() - from,
{
    if from < regions.len() && !(regions[from].linked && regions[from].name == name) {
        lemma_lookup_found(regions, name, from + 1);
    }
}

/// After a name was unlinked, no region is found under it: the first linked
/// region of that name is gone, and with names unique among linked regions
/// there is no other.
pub proof fn lemma_unlink_frees(regions: Seq<RegionView>, name: Seq<u8>)
    requires
        spec_unique_names(regions),
    ensures
        spec_lookup(spec_unlink(regions, name), name) == -1,
        spec_unique_names(spec_unlink(regions, name)),
{
    let at = spec_lookup(regions, name);
    let after = spec_unlink(regions, name);
    if at >= 0 {
        lemma_lookup_found(regions, name, 0);
    }
    assert forall|i: int| 0 <= i < after.len() implies !((#[trigger] after[i]).linked && after[i].name
        == name) by {
        if after[i].linked && after[i].name == name {
            assert(regions[i].linked && regions[i].name == name);
            lemma_lookup_finds(regions, name, 0, i);
        }
    }
    lemma_no_linked_no_lookup(after, name, 0);
}

/// Among the linked regions every name occurs once.
pub open spec fn spec_unique_names(regions: Seq<RegionView>) -> bool {
    forall|i: int, j: int|
        0 <= i < regions.len() && 0 <= j < regions.len() && i != j && (#[trigger] regions[i]).linked
            && (#[trigger] regions[j]).linked ==> regions[i].name != regions[j].name
}

proof fn lemma_no_linked_no_lookup(regions: Seq<RegionView>, name: Seq<u8>, from: int)
    requires
        0 <= from,
        forall|i: int| 0 <= i < regions.len() ==> !((#[trigger] regions[i]).linked && regions[i].name == name),
    ensures
        spec_lookup_from(regions, name, from) == -1,
    decreases regions.len() - from,
{
    if from < regions.len() {
        lemma_no_linked_no_lookup(regions, name, from + 1);
    }
}

/// Clearing the storage of a name twice is clearing it once: the second call
/// finds nothing to unlink and changes nothing.
pub proof fn lemma_clear_storage_idempotent(regions: Seq<RegionView>, name: Seq<u8>)
    requires
        spec_unique_names(regions),
    ensures
        spec_unlink(spec_unlink(regions, name), name) == spec_unlink(regions, name),
{
    lemma_unlink_frees(regions, name);
}

/// Acquiring keeps the names of linked regions unique.
pub proof fn lemma_acquire_keeps_unique(
    regions: Seq<RegionView>,
    name: Seq<char>,
    size: nat,
    mode: ShmOpenMode,
    max: nat,
)
    requires
        spec_unique_names(regions),
    ensures
        spec_unique_names(spec_acquire(regions, name, size, mode, max)),
{
    let posix = spec_key(name, max);
    let at = spec_lookup(regions, posix);
    let after = spec_acquire(regions, name, size, mode, max);
    if spec_acquire_error(regions, name, size, mode, max).is_none() {
        if at < 0 {
            assert forall|i: int| 0 <= i < regions.len() implies !((#[trigger] regions[i]).linked
                && regions[i].name == posix) by {
                if regions[i].linked && regions[i].name == posix {
                    lemma_lookup_finds(regions, posix, 0, i);
                }
            }
        } else {
            lemma_lookup_found(regions, posix, 0);
        }
    }
}

/// A linked region of a name makes the lookup of that name succeed.
pub proof fn lemma_lookup_finds(regions: Seq<RegionView>, name: Seq<u8>, from: int, at: int)
    requires
        0 <= from <= at < regions.len(),
        regions[at].linked,
        regions[at].name == name,
    ensures
        from <= spec_lookup_from(regions, name, from) <= at,
    decreases regions.len() - from,
{
    if from < at && !(regions[from].linked && regions[from].name == name) {
        lemma_lookup_finds(regions, name, from + 1, at);
    }
}

/// Acquiring the same name twice leads to the same region: what the second
/// acquisition opens is what the first created or opened, so bytes written
/// through one hold are read through the other.
pub proof fn lemma_same_name_same_region(
    regions: Seq<RegionView>,
    name: Seq<char>,
    size: nat,
    other_size: nat,
    max: nat,
)
    requires
        name.len() > 0,
        size > 0,
        other_size > 0,
    ensures
        ({
            let posix = spec_key(name, max);
            let once = spec_acquire(regions, name, size, ShmOpenMode::CreateOrOpen, max);
            let twice = spec_acquire(once, name, other_size, ShmOpenMode::CreateOrOpen, max);
            &&& spec_lookup(once, posix) >= 0
            &&& spec_lookup(twice, posix) == spec_lookup(once, posix)
            &&& twice.len() == once.len()
            &&& twice[spec_lookup(once, posix)].bytes == once[spec_lookup(once, posix)].bytes
        }),
{
    let posix = spec_key(name, max);
    let at = spec_lookup(regions, posix);
    let once = spec_acquire(regions, name, size, ShmOpenMode::CreateOrOpen, max);
    assert(spec_acquire_error(regions, name, size, ShmOpenMode::CreateOrOpen, max).is_none());
    if at < 0 {
        let made = RegionView {
            name: posix,
            linked: true,
            ref_count: 1,
            bytes: Seq::new(size, |i: int| 0u8),
        };
        assert(once == regions.push(made));
        lemma_lookup_push(regions, made, 0);
    } else {
        lemma_lookup_found(regions, posix, 0);
        lemma_lookup_update(regions, posix, at, once[at], 0);
    }
    let first = spec_lookup(once, posix);
    lemma_lookup_found(once, posix, 0);
    let twice = spec_acquire(once, name, other_size, ShmOpenMode::CreateOrOpen, max);
    lemma_lookup_update(once, posix, first, twice[first], 0);
}

/// What the cache of a process holds for one name.
pub struct CachedView {
    /// The name as the process gave it.
    pub name: Seq<char>,
    /// The place of the mapped region in the namespace.
    pub index: int,
    /// The number of holds that the process has on the mapping.
    pub local_ref: usize,
}

/// No name is in the cache twice.
pub open spec fn spec_cache_unique(entries: Seq<CachedView>) -> bool {
    forall|i: int, j: int|
        0 <= i < entries.len() && 0 <= j < entries.len() && i != j ==> (#[trigger] entries[i]).name
            != (#[trigger] entries[j]).name
}

/// The cached name at or after `from` that equals `name`, or -1.
pub open spec fn spec_cached_from(entries: Seq<CachedView>, name: Seq<char>, from: int) -> int
    decreases entries.len() - from,
{
    if from < 0 || from >= entries.len() {
        -1
    } else if entries[from].name == name {
        from
    } else {
        spec_cached_from(entries, name, from + 1)
    }
}

/// What a process gets when it acquires a name through its cache.
#[derive(Debug, Clone, Copy, PartialEq, Eq, Structural)]
pub struct CachedShm {
    /// The place of the region in the namespace.
    pub index: usize,
    /// Whether the caller has to initialise what the region holds: it is the
    /// first user of the region on the host.
    pub creator: bool,
}

struct CacheEntry {
    name: String,
    index: usize,
    local_ref: usize,
}

/// The cache by which a process maps each name once: every acquisition of a
/// name that is cached yields the mapping that is there.
pub struct ShmCache {
    entries: Vec<CacheEntry>,
}

impl View for ShmCache {
    type V = Seq<CachedView>;

    closed spec fn view(&self) -> Seq<CachedView> {
        Seq::new(
            self.entries@.len(),
            |i: int|
                CachedView {
                    name: self.entries@[i].name@,
                    index: self.entries@[i].index as int,
                    local_ref: self.entries@[i].local_ref,
                },
        )
    }
}

impl ShmCache {
    /// No name is mapped twice.
    pub open spec fn inv(&self) -> bool {
        spec_cache_unique(self@)
    }

    /// A cache without mappings.
    pub fn new() -> (cache: ShmCache)
        ensures
            cache@.len() == 0,
            cache.inv(),
    {
        ShmCache { entries: Vec::new() }
    }

    /// The number of names that are mapped.
    pub fn len(&self) -> (n: usize)
        ensures
            n == self@.len(),
    {
        self.entries.len()
    }

    /// The place of `name` in the cache.
    fn position(&self, name: &String) -> (at: Option<usize>)
        ensures
            match at {
                Some(i) => i == spec_cached_from(self@, name@, 0) && i < self@.len(),
                None => spec_cached_from(self@, name@, 0) == -1,
            },
    {
        let n: usize = self.entries.len();
        let mut i: usize = 0;
        while i < n
            invariant
                i <= n,
                n == self.entries@.len(),
                spec_cached_from(self@, name@, 0) == spec_cached_from(self@, name@, i as int),
            decreases n - i,
        {
            assert(self@[i as int].name == self.entries@[i as int].name@);
            if self.entries[i].name == *name {
                return Some(i);
            }
            i = i + 1;
        }
        None
    }

    /// The number of holds that the process has on `name`; 0 where the name
    /// is not mapped.
    pub fn local_ref(&self, name: &str) -> (n: usize)
        ensures
            n == if spec_cached_from(self@, name@, 0) >= 0 {
                self@[spec_cached_from(self@, name@, 0)].local_ref
            } else {
                0
            },
    {
        let key = name.to_owned();
        match self.position(&key) {
            Some(at) => {
                assert(self@[at as int].local_ref == self.entries@[at as int].local_ref);
                self.entries[at].local_ref
            },
            None => 0,
        }
    }

    /// Looks `name` up for an acquisition under `mode`. A name that is not
    /// mapped yields nothing. A name that is mapped cannot be created anew;
    /// under any other mode it yields the place of its mapping, and the
    /// process has one hold more on it.
    pub fn hit(&mut self, name: &str, mode: ShmOpenMode) -> (found: Option<Result<usize, ShmError>>)
        requires
            old(self).inv(),
        ensures
            final(self).inv(),
            ({
                let hit = spec_cached_from(old(self)@, name@, 0);
                if hit < 0 {
                    found.is_none() && final(self)@ == old(self)@
                } else if mode == ShmOpenMode::Create {
                    found == Some(Err::<usize, ShmError>(ShmError::AlreadyExists)) && final(self)@ == old(self)@
                } else {
                    &&& found == Some(Ok::<usize, ShmError>(old(self)@[hit].index as usize))
                    &&& final(self)@ == old(self)@.update(
                        hit,
                        CachedView {
                            local_ref: old(self)@[hit].local_ref.wrapping_add(1),
                            ..old(self)@[hit]
                        },
                    )
                }
            }),
    {
        let key = name.to_owned();
        match self.position(&key) {
            None => None,
            Some(at) => {
                if mode == ShmOpenMode::Create {
                    return Some(Err(ShmError::AlreadyExists));
                }
                assert(self@[at as int].index == self.entries@[at as int].index);
                assert(self@[at as int].local_ref == self.entries@[at as int].local_ref);
                let index: usize = self.entries[at].index;
                self.entries[at].local_ref = self.entries[at].local_ref.wrapping_add(1);
                assert(self@ =~= old(self)@.update(
                    at as int,
                    CachedView {
                        local_ref: old(self)@[at as int].local_ref.wrapping_add(1),
                        ..old(self)@[at as int]
                    },
                ));
                proof {
                    lemma_cache_update_unique(old(self)@, at as int, self@[at as int]);
                }
                Some(Ok(index))
            },
        }
    }

    /// Enters the mapping at `index` into the cache under `name`, with one
    /// hold. The name is not mapped yet.
    pub fn insert(&mut self, name: &str, index: usize)
        requires
            old(self).inv(),
            spec_cached_from(old(self)@, name@, 0) < 0,
        ensures
            final(self).inv(),
            final(self)@ == old(self)@.push(
                CachedView { name: name@, index: index as int, local_ref: 1 },
            ),
    {
        self.entries.push(CacheEntry { name: name.to_owned(), index, local_ref: 1 });
        assert(self@ =~= old(self)@.push(
            CachedView { name: name@, index: index as int, local_ref: 1 },
        ));
        proof {
            lemma_cache_push_unique(
                old(self)@,
                CachedView { name: name@, index: index as int, local_ref: 1 },
            );
        }
    }

    /// Acquires `name` for the process. A name that is mapped yields the
    /// mapping that is there, with one hold more; the namespace is not
    /// touched, and there is nothing to initialise. A name that is not mapped
    /// is acquired from the namespace, created if need be, and enters the
    /// cache with one hold; the caller initialises the region if it is the
    /// region's first user.
    pub fn acquire(&mut self, space: &mut ShmSpace, name: &str, size: usize) -> (acquired: Result<
        CachedShm,
        ShmError,
    >)
        requires
            old(self).inv(),
            old(space).inv(),
        ensures
            final(self).inv(),
            final(space).inv(),
            final(space).spec_name_max() == old(space).spec_name_max(),
            ({
                let hit = spec_cached_from(old(self)@, name@, 0);
                let at = spec_lookup(old(space)@, spec_key(name@, old(space).spec_name_max()));
                if hit >= 0 {
                    &&& final(space)@ == old(space)@
                    &&& acquired == Ok::<CachedShm, ShmError>(
                        CachedShm { index: old(self)@[hit].index as usize, creator: false },
                    )
                    &&& final(self)@ == old(self)@.update(
                        hit,
                        CachedView {
                            local_ref: old(self)@[hit].local_ref.wrapping_add(1),
                            ..old(self)@[hit]
                        },
                    )
                } else {
                    &&& final(space)@ == spec_acquire(
                        old(space)@,
                        name@,
                        size as nat,
                        ShmOpenMode::CreateOrOpen,
                        old(space).spec_name_max(),
                    )
                    &&& match acquired {
                        Ok(shm) => {
                            &&& spec_acquire_error(
                                old(space)@,
                                name@,
                                size as nat,
                                ShmOpenMode::CreateOrOpen,
                                old(space).spec_name_max(),
                            ).is_none()
                            &&& shm.index == spec_lookup(final(space)@, spec_key(name@, old(space).spec_name_max()))
                            &&& shm.creator == (at < 0 || old(space)@[at].ref_count == 0)
                            &&& final(self)@ == old(self)@.push(
                                CachedView { name: name@, index: shm.index as int, local_ref: 1 },
                            )
                        },
                        Err(e) => {
                            &&& spec_acquire_error(
                                old(space)@,
                                name@,
                                size as nat,
                                ShmOpenMode::CreateOrOpen,
                                old(space).spec_name_max(),
                            ) == Some(e)
                            &&& final(self)@ == old(self)@
                        },
                    }
                }
            }),
    {
        match self.hit(name, ShmOpenMode::CreateOrOpen) {
            Some(Ok(index)) => Ok(CachedShm { index, creator: false }),
            Some(Err(e)) => Err(e),
            None => {
                match space.acquire(name, size, ShmOpenMode::CreateOrOpen) {
                    Err(e) => Err(e),
                    Ok(handle) => {
                        let index: usize = handle.index();
                        let creator: bool = handle.prev_ref_count() == 0;
                        self.insert(name, index);
                        Ok(CachedShm { index, creator })
                    },
                }
            },
        }
    }

    /// Gives up one hold of the process on `name`. With the last hold the
    /// mapping leaves the cache; the caller then releases the region, whose
    /// place is returned. A name that is not mapped changes nothing.
    pub fn release(&mut self, name: &str) -> (unmapped: Option<usize>)
        requires
            old(self).inv(),
        ensures
            final(self).inv(),
            ({
                let hit = spec_cached_from(old(self)@, name@, 0);
                if hit < 0 {
                    unmapped.is_none() && final(self)@ == old(self)@
                } else if old(self)@[hit].local_ref <= 1 {
                    unmapped == Some(old(self)@[hit].index as usize) && final(self)@ == old(self)@.remove(hit)
                } else {
                    unmapped.is_none() && final(self)@ == old(self)@.update(
                        hit,
                        CachedView {
                            local_ref: (old(self)@[hit].local_ref - 1) as usize,
                            ..old(self)@[hit]
                        },
                    )
                }
            }),
    {
        let key = name.to_owned();
        match self.position(&key) {
            None => None,
            Some(at) => {
                assert(self@[at as int].index == self.entries@[at as int].index);
                assert(self@[at as int].local_ref == self.entries@[at as int].local_ref);
                if self.entries[at].local_ref <= 1 {
                    let gone = self.entries.remove(at);
                    assert(self@ =~= old(self)@.remove(at as int));
                    proof {
                        lemma_cache_remove_unique(old(self)@, at as int);
                    }
                    Some(gone.index)
                } else {
                    self.entries[at].local_ref = self.entries[at].local_ref - 1;
                    assert(self@ =~= old(self)@.update(
                        at as int,
                        CachedView {
                            local_ref: (old(self)@[at as int].local_ref - 1) as usize,
                            ..old(self)@[at as int]
                        },
                    ));
                    proof {
                        lemma_cache_update_unique(old(self)@, at as int, self@[at as int]);
                    }
                    None
                }
            },
        }
    }

    /// Drops `name` from the cache, whatever holds there are: after the
    /// storage of a name was cleared, the next acquisition maps anew.
    pub fn purge(&mut self, name: &str) -> (unmapped: Option<usize>)
        requires
            old(self).inv(),
        ensures
            final(self).inv(),
            ({
                let hit = spec_cached_from(old(self)@, name@, 0);
                if hit < 0 {
                    unmapped.is_none() && final(self)@ == old(self)@
                } else {
                    unmapped == Some(old(self)@[hit].index as usize) && final(self)@ == old(self)@.remove(
                        hit,
                    )
                }
            }),
    {
        let key = name.to_owned();
        match self.position(&key) {
            None => None,
            Some(at) => {
                assert(self@[at as int].index == self.entries@[at as int].index);
                let gone = self.entries.remove(at);
                assert(self@ =~= old(self)@.remove(at as int));
                proof {
                    lemma_cache_remove_unique(old(self)@, at as int);
                }
                Some(gone.index)
            },
        }
    }
}

/// Within one process the same name yields the same mapping: a name that
/// entered the cache is found there by the next acquisition, which so gets
/// the region that the first one mapped and has nothing to initialise.
pub proof fn lemma_cached_push(entries: Seq<CachedView>, entry: CachedView, from: int)
    requires
        0 <= from <= entries.len(),
        spec_cached_from(entries, entry.name, from) < 0,
    ensures
        spec_cached_from(entries.push(entry), entry.name, from) == entries.len(),
        entries.push(entry)[spec_cached_from(entries.push(entry), entry.name, from)].index
            == entry.index,
    decreases entries.len() - from,
{
    if from < entries.len() {
        lemma_cached_push(entries, entry, from + 1);
    }
}

/// A name that is in the cache is found.
pub proof fn lemma_cached_finds(entries: Seq<CachedView>, name: Seq<char>, from: int, at: int)
    requires
        0 <= from <= at < entries.len(),
        entries[at].name == name,
    ensures
        from <= spec_cached_from(entries, name, from) <= at,
    decreases entries.len() - from,
{
    if from < at && entries[from].name != name {
        lemma_cached_finds(entries, name, from + 1, at);
    }
}

/// A change to an entry that keeps its name keeps the names apart.
pub proof fn lemma_cache_update_unique(entries: Seq<CachedView>, at: int, entry: CachedView)
    requires
        spec_cache_unique(entries),
        0 <= at < entries.len(),
        entry.name == entries[at].name,
    ensures
        spec_cache_unique(entries.update(at, entry)),
{
    let after = entries.update(at, entry);
    assert forall|i: int, j: int|
        0 <= i < after.len() && 0 <= j < after.len() && i != j implies (#[trigger] after[i]).name != (
    #[trigger] after[j]).name by {
        assert(entries[i].name != entries[j].name);
    }
}

/// Taking an entry out keeps the names apart.
pub proof fn lemma_cache_remove_unique(entries: Seq<CachedView>, at: int)
    requires
        spec_cache_unique(entries),
        0 <= at < entries.len(),
    ensures
        spec_cache_unique(entries.remove(at)),
{
    let after = entries.remove(at);
    assert forall|i: int, j: int|
        0 <= i < after.len() && 0 <= j < after.len() && i != j implies (#[trigger] after[i]).name != (
    #[trigger] after[j]).name by {
        let a = if i < at {
            i
        } else {
            i + 1
        };
        let b = if j < at {
            j
        } else {
            j + 1
        };
        assert(after[i] == entries[a] && after[j] == entries[b]);
        assert(entries[a].name != entries[b].name);
    }
}

/// Entering a name that is not in the cache keeps the names apart.
pub proof fn lemma_cache_push_unique(entries: Seq<CachedView>, entry: CachedView)
    requires
        spec_cache_unique(entries),
        spec_cached_from(entries, entry.name, 0) < 0,
    ensures
        spec_cache_unique(entries.push(entry)),
{
    let after = entries.push(entry);
    assert forall|i: int, j: int|
        0 <= i < after.len() && 0 <= j < after.len() && i != j implies (#[trigger] after[i]).name != (
    #[trigger] after[j]).name by {
        if i < entries.len() && j < entries.len() {
            assert(entries[i].name != entries[j].name);
        } else if i < entries.len() {
            if entries[i].name == entry.name {
                lemma_cached_finds(entries, entry.name, 0, i);
            }
        } else {
            if entries[j].name == entry.name {
                lemma_cached_finds(entries, entry.name, 0, j);
            }
        }
    }
}

} // verus!
