//! The service registry: a table of 32 entries, each naming a service, its
//! two channels and the process that owns it.
//!
//! Whether a process is running is for the caller to find out. Every
//! operation that depends on it takes `alive`, which says for each place of
//! the table whether the process of the entry there is running.

use vstd::prelude::*;
use vstd::array::array_as_slice;
use vstd::slice::slice_subrange;
use vstd::string::StringExecFns;
use vstd::string::StringSliceAdditionalSpecFns;
use vstd::utf8::valid_utf8;
use crate::spin_lock::SpinLock;
use crate::text::{bytes_eq, bytes_start_with, spec_starts_with};

verus! {

/// Number of entries in the table.
pub const MAX_SERVICES: usize = 32;

/// Bytes of each name in an entry, the terminating zero included.
pub const MAX_NAME_LEN: usize = 64;

/// One entry of the table.
#[derive(Clone, Copy, Debug)]
pub struct ServiceEntry {
    /// The service's name, zero-terminated.
    pub name: [u8; 64],
    /// The channel on which the service listens, zero-terminated.
    pub control_channel: [u8; 64],
    /// The channel on which the service replies, zero-terminated.
    pub reply_channel: [u8; 64],
    /// The process that owns the entry.
    pub pid: i32,
    /// When the entry was made, in seconds since the Unix epoch.
    pub registered_at: i64,
    /// Reserved.
    pub flags: u32,
}

/// The place of the first zero byte at or after `from`, or the length where
/// there is none.
pub open spec fn spec_cstr_end(field: Seq<u8>, from: int) -> int
    decreases field.len() - from,
{
    if from < 0 || from >= field.len() {
        field.len() as int
    } else if field[from] == 0 {
        from
    } else {
        spec_cstr_end(field, from + 1)
    }
}

/// The bytes of a field up to its first zero byte.
pub open spec fn spec_cstr(field: Seq<u8>) -> Seq<u8> {
    field.subrange(0, spec_cstr_end(field, 0))
}

/// The text of a field: its bytes up to the first zero byte where they are
/// UTF-8, and the empty text where they are not.
pub open spec fn spec_field_str(field: Seq<u8>) -> Seq<u8> {
    if valid_utf8(spec_cstr(field)) {
        spec_cstr(field)
    } else {
        Seq::<u8>::empty()
    }
}

/// The field that holds `text` in a fresh entry: at most its first 63 bytes,
/// and zero bytes up to 64.
pub open spec fn spec_field(text: Seq<u8>) -> Seq<u8> {
    let n: int = if text.len() < 63 {
        text.len() as int
    } else {
        63
    };
    text.subrange(0, n) + Seq::new((64 - n) as nat, |i: int| 0u8)
}

/// An entry is active if it has an owner and a name.
pub open spec fn spec_active(e: ServiceEntry) -> bool {
    e.pid > 0 && e.name@[0] != 0
}

/// An entry is stale if it is active and its owner is not running.
pub open spec fn spec_stale(e: ServiceEntry, alive: bool) -> bool {
    spec_active(e) && !alive
}

/// An active entry that carries the name `name`.
pub open spec fn spec_named(e: ServiceEntry, name: Seq<u8>) -> bool {
    spec_active(e) && spec_field_str(e.name@) == name
}

/// An entry of zeroes.
pub open spec fn spec_zero(e: ServiceEntry) -> bool {
    &&& e.name@ == Seq::new(64, |i: int| 0u8)
    &&& e.control_channel@ == Seq::new(64, |i: int| 0u8)
    &&& e.reply_channel@ == Seq::new(64, |i: int| 0u8)
    &&& e.pid == 0
    &&& e.registered_at == 0
    &&& e.flags == 0
}

/// An entry as it is made for a registration.
pub open spec fn spec_filled(e: ServiceEntry, name: Seq<u8>, control: Seq<u8>, reply: Seq<u8>, pid: i32, now: i64) -> bool {
    &&& e.name@ == spec_field(name)
    &&& e.control_channel@ == spec_field(control)
    &&& e.reply_channel@ == spec_field(reply)
    &&& e.pid == pid
    &&& e.registered_at == now
    &&& e.flags == 0
}

/// The first place at or after `from` with an active entry named `name`, or
/// -1.
pub open spec fn spec_first_named(entries: Seq<ServiceEntry>, name: Seq<u8>, from: int) -> int
    decreases entries.len() - from,
{
    if from < 0 || from >= entries.len() {
        -1
    } else if spec_named(entries[from], name) {
        from
    } else {
        spec_first_named(entries, name, from + 1)
    }
}

/// The first place at or after `from` with an active entry named `name` that
/// `pid` owns, or -1.
pub open spec fn spec_first_owned(entries: Seq<ServiceEntry>, name: Seq<u8>, pid: i32, from: int) -> int
    decreases entries.len() - from,
{
    if from < 0 || from >= entries.len() {
        -1
    } else if spec_named(entries[from], name) && entries[from].pid == pid {
        from
    } else {
        spec_first_owned(entries, name, pid, from + 1)
    }
}

/// The first place at or after `from` with a running service named `name`,
/// or -1.
pub open spec fn spec_first_live(entries: Seq<ServiceEntry>, name: Seq<u8>, alive: Seq<bool>, from: int) -> int
    decreases entries.len() - from,
{
    if from < 0 || from >= entries.len() {
        -1
    } else if spec_named(entries[from], name) && alive[from] {
        from
    } else {
        spec_first_live(entries, name, alive, from + 1)
    }
}

/// The first place at or after `from` that a registration can take: an entry
/// that is not active, or one whose owner is not running; or -1.
pub open spec fn spec_first_free(entries: Seq<ServiceEntry>, alive: Seq<bool>, from: int) -> int
    decreases entries.len() - from,
{
    if from < 0 || from >= entries.len() {
        -1
    } else if !spec_active(entries[from]) || !alive[from] {
        from
    } else {
        spec_first_free(entries, alive, from + 1)
    }
}

/// The running services among the first `n` entries whose names start with
/// `prefix`, in the order of the table.
pub open spec fn spec_collect(entries: Seq<ServiceEntry>, alive: Seq<bool>, prefix: Seq<u8>, n: int) -> Seq<ServiceEntry>
    decreases n,
{
    if n <= 0 {
        Seq::<ServiceEntry>::empty()
    } else {
        let before = spec_collect(entries, alive, prefix, n - 1);
        let e = entries[n - 1];
        if spec_active(e) && alive[n - 1] && spec_starts_with(spec_field_str(e.name@), prefix) {
            before.push(e)
        } else {
            before
        }
    }
}

/// The number of stale entries among the first `n`.
pub open spec fn spec_stale_count(entries: Seq<ServiceEntry>, alive: Seq<bool>, n: int) -> nat
    decreases n,
{
    if n <= 0 {
        0
    } else {
        spec_stale_count(entries, alive, n - 1) + if spec_stale(entries[n - 1], alive[n - 1]) {
            1nat
        } else {
            0nat
        }
    }
}

/// The table after the stale entries among the first `bound` that meet
/// `named` were zeroed: the entries of `after` are those of `before`, but for
/// these, which are zero.
pub open spec fn spec_swept(before: Seq<ServiceEntry>, after: Seq<ServiceEntry>, alive: Seq<bool>, bound: int, name: Option<Seq<u8>>) -> bool {
    &&& after.len() == before.len()
    &&& forall|j: int|
        0 <= j < before.len() ==> if j < bound && spec_stale(before[j], alive[j]) && (name.is_some()
            ==> spec_named(before[j], name.unwrap())) {
            spec_zero(#[trigger] after[j])
        } else {
            after[j] == before[j]
        }
}

/// What can be registered: a name that is not empty and does not start with
/// a zero byte, for a process whose id is above zero. Anything else would
/// make an entry with an owner and no name, or with a name and no owner.
pub open spec fn spec_registrable(name: Seq<u8>, pid: i32) -> bool {
    pid > 0 && name.len() > 0 && name[0] != 0
}

/// In every entry the owner is zero exactly where the name is empty.
pub open spec fn spec_consistent(entries: Seq<ServiceEntry>) -> bool {
    forall|j: int| 0 <= j < entries.len() ==> ((#[trigger] entries[j]).pid == 0 <==> entries[j].name@[0] == 0)
}

/// The bytes of `bytes` as text, or nothing where they are not UTF-8. Calls
/// `core::str::from_utf8`, which accepts exactly the byte sequences that are
/// valid UTF-8 and hands back a view of the same bytes.
#[verifier::external_body]
fn str_from_utf8(bytes: &[u8]) -> (text: Option<&str>)
    ensures
        text.is_some() == valid_utf8(bytes@),
        text.is_some() ==> text.unwrap().spec_bytes() == bytes@,
{
    core::str::from_utf8(bytes).ok()
}

/// The place of a field's first zero byte, or 64.
pub fn cstr_len(field: &[u8; 64]) -> (end: usize)
    ensures
        end == spec_cstr_end(field@, 0),
        end <= 64,
{
    let mut i: usize = 0;
    while i < 64
        invariant
            i <= 64,
            spec_cstr_end(field@, 0) == spec_cstr_end(field@, i as int),
        decreases 64 - i,
    {
        if field[i] == 0 {
            return i;
        }
        i = i + 1;
    }
    64
}

/// The text of a field: its bytes up to the first zero byte, or the empty
/// text where those are not UTF-8.
pub fn field_str(field: &[u8; 64]) -> (text: &str)
    ensures
        text.spec_bytes() == spec_field_str(field@),
{
    let end = cstr_len(field);
    let bytes = slice_subrange(array_as_slice(field), 0, end);
    match str_from_utf8(bytes) {
        Some(text) => text,
        None => {
            proof {
                reveal_strlit("");
                assert(""@ =~= Seq::<char>::empty());
                assert("".spec_bytes() =~= Seq::<u8>::empty()) by {
                    reveal_with_fuel(vstd::utf8::encode_utf8, 1);
                }
            }
            ""
        },
    }
}

/// Copies `text` into a field: at most its first 63 bytes, then a zero byte;
/// the rest of the field is left as it is.
pub fn copy_str(dst: &mut [u8; 64], text: &str)
    ensures
        ({
            let n: int = if text.spec_bytes().len() < 63 {
                text.spec_bytes().len() as int
            } else {
                63
            };
            final(dst)@ == text.spec_bytes().subrange(0, n) + seq![0u8] + old(dst)@.subrange(n + 1, 64)
        }),
{
    let bytes = text.as_bytes();
    let len: usize = if bytes.len() < MAX_NAME_LEN - 1 {
        bytes.len()
    } else {
        MAX_NAME_LEN - 1
    };
    let mut i: usize = 0;
    while i < len
        invariant
            i <= len,
            len <= 63,
            len <= bytes@.len(),
            forall|j: int| 0 <= j < i ==> dst@[j] == bytes@[j],
            forall|j: int| i <= j < 64 ==> dst@[j] == old(dst)@[j],
        decreases len - i,
    {
        dst[i] = bytes[i];
        i = i + 1;
    }
    dst[len] = 0;
    assert(dst@ =~= bytes@.subrange(0, len as int) + seq![0u8] + old(dst)@.subrange(len + 1, 64));
}

impl ServiceEntry {
    /// Whether the entry has an owner and a name.
    pub fn active(&self) -> (yes: bool)
        ensures
            yes == spec_active(*self),
    {
        self.pid > 0 && self.name[0] != 0
    }

    /// The service's name.
    pub fn name_str(&self) -> (text: &str)
        ensures
            text.spec_bytes() == spec_field_str(self.name@),
    {
        field_str(&self.name)
    }

    /// The channel on which the service listens.
    pub fn control_channel_str(&self) -> (text: &str)
        ensures
            text.spec_bytes() == spec_field_str(self.control_channel@),
    {
        field_str(&self.control_channel)
    }

    /// The channel on which the service replies.
    pub fn reply_channel_str(&self) -> (text: &str)
        ensures
            text.spec_bytes() == spec_field_str(self.reply_channel@),
    {
        field_str(&self.reply_channel)
    }

    /// Whether the service of the entry is running, given whether the
    /// process `pid` is: an entry without an owner never is.
    pub fn is_alive(&self, process_alive: bool) -> (yes: bool)
        ensures
            yes == (self.pid > 0 && process_alive),
    {
        if self.pid <= 0 {
            return false;
        }
        process_alive
    }

    /// Whether the entry carries the name `name`.
    pub fn named(&self, name: &str) -> (yes: bool)
        ensures
            yes == spec_named(*self, name.spec_bytes()),
    {
        self.active() && bytes_eq(self.name_str().as_bytes(), name.as_bytes())
    }

    /// The entry for a registration.
    pub fn filled(name: &str, control: &str, reply: &str, pid: i32, now: i64) -> (e: ServiceEntry)
        ensures
            spec_filled(e, name.spec_bytes(), control.spec_bytes(), reply.spec_bytes(), pid, now),
    {
        let mut e = ServiceEntry::default();
        copy_str(&mut e.name, name);
        copy_str(&mut e.control_channel, control);
        copy_str(&mut e.reply_channel, reply);
        e.pid = pid;
        e.registered_at = now;
        assert(e.name@ =~= spec_field(name.spec_bytes()));
        assert(e.control_channel@ =~= spec_field(control.spec_bytes()));
        assert(e.reply_channel@ =~= spec_field(reply.spec_bytes()));
        e
    }
}

impl Default for ServiceEntry {
    fn default() -> (e: ServiceEntry)
        ensures
            spec_zero(e),
    {
        let e = ServiceEntry {
            name: [0u8; 64],
            control_channel: [0u8; 64],
            reply_channel: [0u8; 64],
            pid: 0,
            registered_at: 0,
            flags: 0,
        };
        assert(e.name@ =~= Seq::new(64, |i: int| 0u8));
        assert(e.control_channel@ =~= Seq::new(64, |i: int| 0u8));
        assert(e.reply_channel@ =~= Seq::new(64, |i: int| 0u8));
        e
    }
}

/// The name of the region that holds the registry of a domain: the fixed
/// stem and the domain, `default` where the domain is empty.
pub open spec fn spec_registry_shm_name(domain: Seq<char>) -> Seq<char> {
    if domain.len() == 0 {
        "__ipc_registry__default"@
    } else {
        "__ipc_registry__"@ + domain
    }
}

/// Builds the name of the region that holds the registry of `domain`.
pub fn registry_shm_name(domain: &str) -> (name: String)
    ensures
        name@ == spec_registry_shm_name(domain@),
{
    if domain.is_empty() {
        String::from_str("__ipc_registry__default")
    } else {
        let mut name = String::from_str("__ipc_registry__");
        name.append(domain);
        name
    }
}

/// What the registry holds.
pub struct RegistryView {
    /// Whether the lock of the table is held.
    pub locked: bool,
    /// The number of registrations that took a new place, up to 32.
    pub count: u32,
    /// The 32 entries.
    pub entries: Seq<ServiceEntry>,
}

/// The registry of one domain.
pub struct ServiceRegistry {
    lock: SpinLock,
    count: u32,
    entries: Vec<ServiceEntry>,
}

impl View for ServiceRegistry {
    type V = RegistryView;

    closed spec fn view(&self) -> RegistryView {
        RegistryView { locked: self.lock.is_locked(), count: self.count, entries: self.entries@ }
    }
}

impl ServiceRegistry {
    /// The table has its 32 entries, and its lock is free.
    pub open spec fn inv(&self) -> bool {
        self@.entries.len() == 32 && !self@.locked
    }

    /// The registry of a fresh region: every entry zero.
    pub fn new() -> (registry: ServiceRegistry)
        ensures
            registry.inv(),
            registry@.count == 0,
            registry@.entries.len() == 32,
            forall|j: int| 0 <= j < 32 ==> spec_zero(#[trigger] registry@.entries[j]),
            spec_consistent(registry@.entries),
    {
        let mut entries: Vec<ServiceEntry> = Vec::new();
        let mut i: usize = 0;
        while i < MAX_SERVICES
            invariant
                i <= MAX_SERVICES,
                entries@.len() == i,
                forall|j: int| 0 <= j < i ==> spec_zero(#[trigger] entries@[j]),
            decreases MAX_SERVICES - i,
        {
            entries.push(ServiceEntry::default());
            i = i + 1;
        }
        ServiceRegistry { lock: SpinLock::new(), count: 0, entries }
    }

    /// The registry with the given count and entries, as they were read
    /// from a region whose lock the caller holds.
    pub fn from_parts(count: u32, entries: &[ServiceEntry; 32]) -> (registry: ServiceRegistry)
        ensures
            registry.inv(),
            registry@.count == count,
            registry@.entries == entries@,
    {
        let mut table: Vec<ServiceEntry> = Vec::new();
        let mut i: usize = 0;
        while i < MAX_SERVICES
            invariant
                i <= MAX_SERVICES,
                table@.len() == i,
                forall|j: int| 0 <= j < i ==> table@[j] == entries@[j],
            decreases MAX_SERVICES - i,
        {
            table.push(entries[i]);
            i = i + 1;
        }
        assert(table@ =~= entries@);
        ServiceRegistry { lock: SpinLock::new(), count, entries: table }
    }

    /// The entry at `index`.
    pub fn entry(&self, index: usize) -> (e: ServiceEntry)
        requires
            self.inv(),
            index < 32,
        ensures
            e == self@.entries[index as int],
    {
        self.entries[index]
    }

    /// The number of registrations that took a new place, up to 32.
    pub fn count(&self) -> (n: u32)
        ensures
            n == self@.count,
    {
        self.count
    }

    /// Registers the service `name` for the process `pid` at the time `now`.
    /// A name that is empty or starts with a zero byte is refused, and so is a
    /// process id that is not above zero. Where an active entry carries the name, it
    /// is taken over if its owner is not running or is `pid` itself, and the
    /// registration is refused otherwise. Where none does, the first entry
    /// that is not active or whose owner is not running is taken; if there is
    /// none, the table is full and the registration is refused.
    pub fn register_service_as(
        &mut self,
        name: &str,
        control_ch: &str,
        reply_ch: &str,
        pid: i32,
        now: i64,
        alive: &[bool; 32],
    ) -> (registered: bool)
        requires
            old(self).inv(),
        ensures
            final(self).inv(),
            ({
                let entries = old(self)@.entries;
                let m = spec_first_named(entries, name.spec_bytes(), 0);
                let f = spec_first_free(entries, alive@, 0);
                let at = if m >= 0 {
                    m
                } else {
                    f
                };
                &&& registered == (spec_registrable(name.spec_bytes(), pid) && if m >= 0 {
                    !alive@[m] || entries[m].pid == pid
                } else {
                    f >= 0
                })
                &&& !registered ==> final(self)@ == old(self)@
                &&& registered ==> {
                    &&& 0 <= at < 32
                    &&& final(self)@.entries == entries.update(at, final(self)@.entries[at])
                    &&& spec_filled(
                        final(self)@.entries[at],
                        name.spec_bytes(),
                        control_ch.spec_bytes(),
                        reply_ch.spec_bytes(),
                        pid,
                        now,
                    )
                    &&& final(self)@.count == if m < 0 && old(self)@.count < 32 {
                        (old(self)@.count + 1) as u32
                    } else {
                        old(self)@.count
                    }
                }
            }),
            spec_consistent(old(self)@.entries) ==> spec_consistent(final(self)@.entries),
    {
        let name_bytes = name.as_bytes();
        if pid <= 0 || name_bytes.len() == 0 || name_bytes[0] == 0 {
            return false;
        }
        self.lock.lock();
        let mut i: usize = 0;
        while i < MAX_SERVICES
            invariant
                i <= MAX_SERVICES,
                self.entries@.len() == 32,
                self.lock.is_locked(),
                old(self).inv(),
                self.count == old(self).count,
                self.entries == old(self).entries,
                spec_registrable(name.spec_bytes(), pid),
                spec_first_named(self@.entries, name.spec_bytes(), 0) == spec_first_named(
                    self@.entries,
                    name.spec_bytes(),
                    i as int,
                ),
            decreases MAX_SERVICES - i,
        {
            if self.entries[i].named(name) {
                if alive[i] && self.entries[i].pid != pid {
                    self.lock.unlock();
                    return false;
                }
                assert(spec_first_named(old(self)@.entries, name.spec_bytes(), i as int) == i);
                self.entries[i] = ServiceEntry::filled(name, control_ch, reply_ch, pid, now);
                self.lock.unlock();
                proof {
                    assert(self@.entries =~= old(self)@.entries.update(
                        i as int,
                        self@.entries[i as int],
                    ));
                    lemma_filled_consistent(
                        old(self)@.entries,
                        self@.entries,
                        i as int,
                        name.spec_bytes(),
                        control_ch.spec_bytes(),
                        reply_ch.spec_bytes(),
                        pid,
                        now,
                    );
                }
                return true;
            }
            i = i + 1;
        }
        let mut k: usize = 0;
        while k < MAX_SERVICES
            invariant
                k <= MAX_SERVICES,
                self.entries@.len() == 32,
                self.lock.is_locked(),
                old(self).inv(),
                self.count == old(self).count,
                self.entries == old(self).entries,
                spec_registrable(name.spec_bytes(), pid),
                spec_first_named(self@.entries, name.spec_bytes(), 0) == -1,
                spec_first_free(self@.entries, alive@, 0) == spec_first_free(
                    self@.entries,
                    alive@,
                    k as int,
                ),
            decreases MAX_SERVICES - k,
        {
            if !self.entries[k].active() || !alive[k] {
                assert(spec_first_free(old(self)@.entries, alive@, k as int) == k);
                self.entries[k] = ServiceEntry::filled(name, control_ch, reply_ch, pid, now);
                if self.count < 32 {
                    self.count = self.count + 1;
                }
                self.lock.unlock();
                proof {
                    assert(self@.entries =~= old(self)@.entries.update(
                        k as int,
                        self@.entries[k as int],
                    ));
                    lemma_filled_consistent(
                        old(self)@.entries,
                        self@.entries,
                        k as int,
                        name.spec_bytes(),
                        control_ch.spec_bytes(),
                        reply_ch.spec_bytes(),
                        pid,
                        now,
                    );
                }
                return true;
            }
            k = k + 1;
        }
        self.lock.unlock();
        false
    }

    /// Removes the registration of `name` that `pid` owns. Returns whether
    /// there was one; a registration of another process is left alone.
    pub fn unregister_service_as(&mut self, name: &str, pid: i32) -> (removed: bool)
        requires
            old(self).inv(),
        ensures
            final(self).inv(),
            ({
                let entries = old(self)@.entries;
                let at = spec_first_owned(entries, name.spec_bytes(), pid, 0);
                &&& removed == (at >= 0)
                &&& !removed ==> final(self)@ == old(self)@
                &&& removed ==> {
                    &&& at < 32
                    &&& final(self)@.count == old(self)@.count
                    &&& final(self)@.entries == entries.update(at, final(self)@.entries[at])
                    &&& spec_zero(final(self)@.entries[at])
                }
            }),
            spec_consistent(old(self)@.entries) ==> spec_consistent(final(self)@.entries),
    {
        self.lock.lock();
        let mut i: usize = 0;
        while i < MAX_SERVICES
            invariant
                i <= MAX_SERVICES,
                self.entries@.len() == 32,
                self.lock.is_locked(),
                old(self).inv(),
                self.count == old(self).count,
                self.entries == old(self).entries,
                spec_first_owned(self@.entries, name.spec_bytes(), pid, 0) == spec_first_owned(
                    self@.entries,
                    name.spec_bytes(),
                    pid,
                    i as int,
                ),
            decreases MAX_SERVICES - i,
        {
            if self.entries[i].named(name) && self.entries[i].pid == pid {
                self.entries[i] = ServiceEntry::default();
                self.lock.unlock();
                assert(self@.entries =~= old(self)@.entries.update(i as int, self@.entries[i as int]));
                return true;
            }
            i = i + 1;
        }
        self.lock.unlock();
        false
    }

    /// Looks up the running service `name`. Returns a copy of its entry, or
    /// nothing where there is none. Stale entries of that name that the scan
    /// passes on its way are zeroed.
    pub fn find(&mut self, name: &str, alive: &[bool; 32]) -> (found: Option<ServiceEntry>)
        requires
            old(self).inv(),
        ensures
            final(self).inv(),
            final(self)@.count == old(self)@.count,
            ({
                let entries = old(self)@.entries;
                let hit = spec_first_live(entries, name.spec_bytes(), alive@, 0);
                &&& found.is_some() == (hit >= 0)
                &&& found.is_some() ==> hit < 32 && found.unwrap() == entries[hit]
                &&& spec_swept(
                    entries,
                    final(self)@.entries,
                    alive@,
                    if hit >= 0 {
                        hit
                    } else {
                        32
                    },
                    Some(name.spec_bytes()),
                )
            }),
            spec_consistent(old(self)@.entries) ==> spec_consistent(final(self)@.entries),
    {
        self.lock.lock();
        let mut i: usize = 0;
        while i < MAX_SERVICES
            invariant
                i <= MAX_SERVICES,
                self.entries@.len() == 32,
                self.lock.is_locked(),
                self.count == old(self).count,
                spec_first_live(old(self)@.entries, name.spec_bytes(), alive@, 0)
                    == spec_first_live(old(self)@.entries, name.spec_bytes(), alive@, i as int),
                spec_swept(
                    old(self)@.entries,
                    self@.entries,
                    alive@,
                    i as int,
                    Some(name.spec_bytes()),
                ),
            decreases MAX_SERVICES - i,
        {
            if self.entries[i].named(name) {
                if !alive[i] {
                    self.entries[i] = ServiceEntry::default();
                } else {
                    let hit: ServiceEntry = self.entries[i];
                    self.lock.unlock();
                    proof {
                        assert(self@.entries[i as int] == old(self)@.entries[i as int]);
                        lemma_swept_consistent(
                            old(self)@.entries,
                            self@.entries,
                            alive@,
                            i as int,
                            Some(name.spec_bytes()),
                        );
                    }
                    return Some(hit);
                }
            }
            i = i + 1;
        }
        self.lock.unlock();
        proof {
            lemma_swept_consistent(
                old(self)@.entries,
                self@.entries,
                alive@,
                32,
                Some(name.spec_bytes()),
            );
        }
        None
    }

    /// Lists the running services whose names start with `prefix`, in the
    /// order of the table. Every stale entry is zeroed.
    pub fn find_all(&mut self, prefix: &str, alive: &[bool; 32]) -> (found: Vec<ServiceEntry>)
        requires
            old(self).inv(),
        ensures
            final(self).inv(),
            final(self)@.count == old(self)@.count,
            found@ == spec_collect(old(self)@.entries, alive@, prefix.spec_bytes(), 32),
            spec_swept(old(self)@.entries, final(self)@.entries, alive@, 32, None),
            spec_consistent(old(self)@.entries) ==> spec_consistent(final(self)@.entries),
    {
        self.lock.lock();
        let mut result: Vec<ServiceEntry> = Vec::new();
        let mut i: usize = 0;
        while i < MAX_SERVICES
            invariant
                i <= MAX_SERVICES,
                self.entries@.len() == 32,
                self.lock.is_locked(),
                self.count == old(self).count,
                result@ == spec_collect(old(self)@.entries, alive@, prefix.spec_bytes(), i as int),
                spec_swept(old(self)@.entries, self@.entries, alive@, i as int, None),
            decreases MAX_SERVICES - i,
        {
            if self.entries[i].active() {
                if !alive[i] {
                    self.entries[i] = ServiceEntry::default();
                } else if bytes_start_with(self.entries[i].name_str().as_bytes(), prefix.as_bytes()) {
                    result.push(self.entries[i]);
                }
            }
            i = i + 1;
        }
        self.lock.unlock();
        proof {
            lemma_swept_consistent(old(self)@.entries, self@.entries, alive@, 32, None);
        }
        result
    }

    /// Lists the running services, in the order of the table. Every stale
    /// entry is zeroed.
    pub fn list(&mut self, alive: &[bool; 32]) -> (found: Vec<ServiceEntry>)
        requires
            old(self).inv(),
        ensures
            final(self).inv(),
            final(self)@.count == old(self)@.count,
            found@ == spec_collect(old(self)@.entries, alive@, Seq::<u8>::empty(), 32),
            spec_swept(old(self)@.entries, final(self)@.entries, alive@, 32, None),
            spec_consistent(old(self)@.entries) ==> spec_consistent(final(self)@.entries),
    {
        proof {
            reveal_strlit("");
            assert(""@ =~= Seq::<char>::empty());
            assert("".spec_bytes() =~= Seq::<u8>::empty()) by {
                reveal_with_fuel(vstd::utf8::encode_utf8, 1);
            }
        }
        self.find_all("", alive)
    }

    /// Zeroes every stale entry. Returns how many there were.
    pub fn gc(&mut self, alive: &[bool; 32]) -> (removed: usize)
        requires
            old(self).inv(),
        ensures
            final(self).inv(),
            final(self)@.count == old(self)@.count,
            removed == spec_stale_count(old(self)@.entries, alive@, 32),
            spec_swept(old(self)@.entries, final(self)@.entries, alive@, 32, None),
            spec_consistent(old(self)@.entries) ==> spec_consistent(final(self)@.entries),
    {
        self.lock.lock();
        let mut removed: usize = 0;
        let mut i: usize = 0;
        while i < MAX_SERVICES
            invariant
                i <= MAX_SERVICES,
                self.entries@.len() == 32,
                self.lock.is_locked(),
                self.count == old(self).count,
                removed <= i,
                removed == spec_stale_count(old(self)@.entries, alive@, i as int),
                spec_swept(old(self)@.entries, self@.entries, alive@, i as int, None),
            decreases MAX_SERVICES - i,
        {
            if self.entries[i].active() && !alive[i] {
                self.entries[i] = ServiceEntry::default();
                removed = removed + 1;
            }
            i = i + 1;
        }
        self.lock.unlock();
        proof {
            lemma_swept_consistent(old(self)@.entries, self@.entries, alive@, 32, None);
        }
        removed
    }

    /// Zeroes the whole table.
    pub fn clear(&mut self)
        requires
            old(self).inv(),
        ensures
            final(self).inv(),
            final(self)@.count == 0,
            final(self)@.entries.len() == 32,
            forall|j: int| 0 <= j < 32 ==> spec_zero(#[trigger] final(self)@.entries[j]),
            spec_consistent(final(self)@.entries),
    {
        self.lock.lock();
        let mut i: usize = 0;
        while i < MAX_SERVICES
            invariant
                i <= MAX_SERVICES,
                self.entries@.len() == 32,
                self.lock.is_locked(),
                forall|j: int| 0 <= j < i ==> spec_zero(#[trigger] self.entries@[j]),
            decreases MAX_SERVICES - i,
        {
            self.entries[i] = ServiceEntry::default();
            i = i + 1;
        }
        self.count = 0;
        self.lock.unlock();
    }
}

/// Zeroing stale entries keeps owners and names in step.
pub proof fn lemma_swept_consistent(before: Seq<ServiceEntry>, after: Seq<ServiceEntry>, alive: Seq<bool>, bound: int, name: Option<Seq<u8>>)
    requires
        spec_swept(before, after, alive, bound, name),
    ensures
        spec_consistent(before) ==> spec_consistent(after),
{
    if spec_consistent(before) {
        assert forall|j: int| 0 <= j < after.len() implies ((#[trigger] after[j]).pid == 0
            <==> after[j].name@[0] == 0) by {
            assert(before[j].pid == 0 <==> before[j].name@[0] == 0);
            if !(after[j] == before[j]) {
                assert(spec_zero(after[j]));
            }
        }
    }
}

/// A registration with an owner and a name that does not start with a zero
/// byte keeps owners and names in step.
pub proof fn lemma_filled_consistent(
    before: Seq<ServiceEntry>,
    after: Seq<ServiceEntry>,
    at: int,
    name: Seq<u8>,
    control: Seq<u8>,
    reply: Seq<u8>,
    pid: i32,
    now: i64,
)
    requires
        0 <= at < before.len(),
        after == before.update(at, after[at]),
        spec_filled(after[at], name, control, reply, pid, now),
    ensures
        spec_consistent(before) && pid != 0 && name.len() > 0 && name[0] != 0 ==> spec_consistent(
            after,
        ),
{
    if spec_consistent(before) && pid != 0 && name.len() > 0 && name[0] != 0 {
        assert(spec_field(name)[0] == name[0]);
        assert forall|j: int| 0 <= j < after.len() implies ((#[trigger] after[j]).pid == 0
            <==> after[j].name@[0] == 0) by {
            if j != at {
                assert(after[j] == before[j]);
            }
        }
    }
}

} // verus!
