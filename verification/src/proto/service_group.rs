//! A group of redundant instances of one service: which of them is the
//! primary, what a health check changes, and how a failover elects the next.
//!
//! Whether an instance is running is for the caller to find out. Every
//! operation that depends on it takes `alive`, which says so for each
//! instance. Spawning and killing are the caller's as well: the group says
//! which instances are due.

use vstd::prelude::*;
use vstd::string::StringExecFns;
use crate::proto::process_manager::ProcessHandle;
use crate::proto::service_registry::{spec_zero, ServiceEntry};
use crate::text::{decimal, spec_decimal};

verus! {

/// The role of an instance in its group.
#[derive(Debug, Clone, Copy, PartialEq, Eq, Structural)]
pub enum InstanceRole {
    /// The instance that serves.
    Primary,
    /// An instance that runs and stands by.
    Standby,
    /// An instance that does not run.
    Dead,
}

/// One instance of the service.
pub struct ManagedInstance {
    /// The number of the instance in its group.
    pub id: usize,
    /// Its role.
    pub role: InstanceRole,
    /// Its process.
    pub proc: ProcessHandle,
    /// Its entry in the registry, as it was when the instance appeared.
    pub entry: ServiceEntry,
    /// Its name in the registry: the service's name, a dot and the number.
    pub instance_name: String,
}

impl ManagedInstance {
    /// Whether the instance is running, given whether its process is.
    pub fn is_alive(&self, process_alive: bool) -> (yes: bool)
        ensures
            yes == (self.proc.pid > 0 && process_alive),
    {
        self.proc.is_alive(process_alive)
    }
}

/// How a group is set up.
pub struct ServiceGroupConfig {
    /// The name of the service.
    pub service_name: String,
    /// The path of the service's binary.
    pub executable: String,
    /// The number of instances.
    pub replicas: usize,
    /// Whether instances that died are spawned again.
    pub auto_respawn: bool,
    /// How long a spawned instance has to appear in the registry, in
    /// milliseconds.
    pub spawn_timeout_ms: u64,
}

impl ServiceGroupConfig {
    /// The default setup: two instances, spawned again when they die, five
    /// seconds to appear in the registry.
    pub fn new(service_name: &str, executable: &str) -> (config: ServiceGroupConfig)
        ensures
            config.service_name@ == service_name@,
            config.executable@ == executable@,
            config.replicas == 2,
            config.auto_respawn,
            config.spawn_timeout_ms == 5000,
    {
        ServiceGroupConfig {
            service_name: String::from_str(service_name),
            executable: String::from_str(executable),
            replicas: 2,
            auto_respawn: true,
            spawn_timeout_ms: 5000,
        }
    }
}

/// What a poll for a spawned instance decides.
#[derive(Debug, Clone, Copy, PartialEq, Eq, Structural)]
pub enum SpawnPoll {
    /// The instance appeared in the registry: it is a standby now.
    Registered,
    /// The instance will not appear: its process is gone, or its time is up.
    Failed,
    /// The caller sleeps and polls again.
    Wait,
}

/// Decides one poll for a spawned instance: whether it was `found` in the
/// registry, whether the instance's earlier process or the `child` that was
/// just spawned is running, and whether the deadline has passed.
pub fn spawn_poll(found: bool, previous_alive: bool, child_alive: bool, deadline_passed: bool) -> (poll:
    SpawnPoll)
    ensures
        poll == if found {
            SpawnPoll::Registered
        } else if (!previous_alive && !child_alive) || deadline_passed {
            SpawnPoll::Failed
        } else {
            SpawnPoll::Wait
        },
{
    if found {
        SpawnPoll::Registered
    } else if !previous_alive && !child_alive {
        SpawnPoll::Failed
    } else if deadline_passed {
        SpawnPoll::Failed
    } else {
        SpawnPoll::Wait
    }
}

/// What a group holds, as far as roles go.
pub struct GroupView {
    /// The role of each instance.
    pub roles: Seq<InstanceRole>,
    /// The number of the primary, if there is one.
    pub primary: Option<int>,
}

/// The primary is the one instance with the role Primary.
pub open spec fn spec_group_inv(v: GroupView) -> bool {
    &&& v.primary.is_some() ==> 0 <= v.primary.unwrap() < v.roles.len()
    &&& forall|j: int|
        0 <= j < v.roles.len() ==> ((#[trigger] v.roles[j]) == InstanceRole::Primary <==> v.primary
            == Some(j))
}

/// The first running instance at or after `from`, or -1.
pub open spec fn spec_first_alive(alive: Seq<bool>, from: int) -> int
    decreases alive.len() - from,
{
    if from < 0 || from >= alive.len() {
        -1
    } else if alive[from] {
        from
    } else {
        spec_first_alive(alive, from + 1)
    }
}

/// The group after an election: the first running instance is the primary,
/// every other running instance stands by, and an instance that does not run
/// keeps its role unless that was Primary, in which case it is Dead.
pub open spec fn spec_elect(v: GroupView, alive: Seq<bool>) -> GroupView {
    let first = spec_first_alive(alive, 0);
    GroupView {
        roles: Seq::new(
            v.roles.len(),
            |j: int|
                if j == first {
                    InstanceRole::Primary
                } else if alive[j] {
                    InstanceRole::Standby
                } else if v.roles[j] == InstanceRole::Primary {
                    InstanceRole::Dead
                } else {
                    v.roles[j]
                },
        ),
        primary: if first >= 0 {
            Some(first)
        } else {
            None
        },
    }
}

/// The roles after every instance that does not run was marked Dead.
pub open spec fn spec_mark_dead(roles: Seq<InstanceRole>, alive: Seq<bool>) -> Seq<InstanceRole> {
    Seq::new(
        roles.len(),
        |j: int|
            if !alive[j] {
                InstanceRole::Dead
            } else {
                roles[j]
            },
    )
}

/// Whether a primary has died: an instance with the role Primary does not
/// run.
pub open spec fn spec_primary_died(roles: Seq<InstanceRole>, alive: Seq<bool>) -> bool {
    exists|j: int| 0 <= j < roles.len() && #[trigger] roles[j] == InstanceRole::Primary && !alive[j]
}

/// The group after a health check: the instances that do not run are Dead,
/// and if a primary died, an election follows.
pub open spec fn spec_health_check(v: GroupView, alive: Seq<bool>) -> GroupView {
    let marked = GroupView { roles: spec_mark_dead(v.roles, alive), primary: v.primary };
    if spec_primary_died(v.roles, alive) {
        spec_elect(marked, alive)
    } else {
        marked
    }
}

/// The group after a forced failover: the primary is Dead, and an election
/// follows.
pub open spec fn spec_force_failover(v: GroupView, alive: Seq<bool>) -> GroupView {
    let killed = match v.primary {
        Some(p) => if 0 <= p < v.roles.len() {
            GroupView { roles: v.roles.update(p, InstanceRole::Dead), primary: v.primary }
        } else {
            v
        },
        None => v,
    };
    spec_elect(killed, alive)
}

/// The instances are the same but for their roles: as many, and each with
/// the number, the process, the registry entry and the name it had.
pub open spec fn spec_same_instances(before: Seq<ManagedInstance>, after: Seq<ManagedInstance>) -> bool {
    &&& after.len() == before.len()
    &&& forall|j: int|
        0 <= j < before.len() ==> {
            &&& (#[trigger] after[j]).id == before[j].id
            &&& after[j].proc == before[j].proc
            &&& after[j].entry == before[j].entry
            &&& after[j].instance_name == before[j].instance_name
        }
}

/// The number of running instances among the first `n`.
pub open spec fn spec_alive_count(alive: Seq<bool>, n: int) -> nat
    decreases n,
{
    if n <= 0 {
        0
    } else {
        spec_alive_count(alive, n - 1) + if alive[n - 1] {
            1nat
        } else {
            0nat
        }
    }
}

/// A group of instances of one service.
pub struct ServiceGroup {
    config: ServiceGroupConfig,
    instances: Vec<ManagedInstance>,
    primary_idx: Option<usize>,
}

impl View for ServiceGroup {
    type V = GroupView;

    closed spec fn view(&self) -> GroupView {
        GroupView {
            roles: Seq::new(self.instances@.len(), |j: int| self.instances@[j].role),
            primary: match self.primary_idx {
                Some(p) => Some(p as int),
                None => None,
            },
        }
    }
}

impl ServiceGroup {
    /// See [`spec_group_inv`].
    pub open spec fn inv(&self) -> bool {
        spec_group_inv(self@)
    }

    /// The instances of the group.
    pub closed spec fn spec_instances(&self) -> Seq<ManagedInstance> {
        self.instances@
    }

    /// The setup of the group.
    pub closed spec fn spec_config(&self) -> ServiceGroupConfig {
        self.config
    }

    /// The roles of the group are those of its instances.
    pub proof fn lemma_roles(&self)
        ensures
            self@.roles.len() == self.spec_instances().len(),
            forall|j: int|
                0 <= j < self@.roles.len() ==> #[trigger] self@.roles[j] == self.spec_instances()[j].role,
    {
    }

    /// A group of `config.replicas` instances, none of which runs yet; the
    /// instance `i` is named by the service's name, a dot and `i`.
    pub fn new(config: ServiceGroupConfig) -> (group: ServiceGroup)
        ensures
            group.inv(),
            group.spec_config() == config,
            group@.primary.is_none(),
            group@.roles.len() == config.replicas,
            forall|j: int| 0 <= j < config.replicas ==> #[trigger] group@.roles[j] == InstanceRole::Dead,
            group.spec_instances().len() == config.replicas,
            forall|j: int|
                0 <= j < config.replicas ==> {
                    let inst = #[trigger] group.spec_instances()[j];
                    &&& inst.id == j
                    &&& inst.proc.pid == 0
                    &&& spec_zero(inst.entry)
                    &&& inst.instance_name@ == config.service_name@ + seq!['.'] + spec_decimal(
                        j as nat,
                    )
                },
    {
        let replicas: usize = config.replicas;
        let mut instances: Vec<ManagedInstance> = Vec::new();
        let mut i: usize = 0;
        while i < replicas
            invariant
                i <= replicas,
                replicas == config.replicas,
                instances@.len() == i,
                forall|j: int|
                    0 <= j < i ==> {
                        let inst = #[trigger] instances@[j];
                        &&& inst.id == j
                        &&& inst.role == InstanceRole::Dead
                        &&& inst.proc.pid == 0
                        &&& spec_zero(inst.entry)
                        &&& inst.instance_name@ == config.service_name@ + seq!['.'] + spec_decimal(
                            j as nat,
                        )
                    },
            decreases replicas - i,
        {
            let mut instance_name = String::from_str(config.service_name.as_str());
            instance_name.append(".");
            let number = decimal(i);
            instance_name.append(number.as_str());
            proof {
                reveal_strlit(".");
                assert(instance_name@ =~= config.service_name@ + seq!['.'] + spec_decimal(i as nat));
            }
            instances.push(
                ManagedInstance {
                    id: i,
                    role: InstanceRole::Dead,
                    proc: ProcessHandle::invalid(),
                    entry: ServiceEntry::default(),
                    instance_name,
                },
            );
            i = i + 1;
        }
        ServiceGroup { config, instances, primary_idx: None }
    }

    /// The setup of the group.
    pub fn config(&self) -> (config: &ServiceGroupConfig)
        ensures
            *config == self.spec_config(),
    {
        &self.config
    }

    /// The instances.
    pub fn instances(&self) -> (instances: &Vec<ManagedInstance>)
        ensures
            instances@ == self.spec_instances(),
    {
        &self.instances
    }

    /// The number of the primary, if there is one.
    pub fn primary_index(&self) -> (index: Option<usize>)
        ensures
            match index {
                Some(p) => self@.primary == Some(p as int),
                None => self@.primary.is_none(),
            },
    {
        self.primary_idx
    }

    /// The primary, if there is one.
    pub fn primary(&self) -> (primary: Option<&ManagedInstance>)
        ensures
            match primary {
                Some(inst) => {
                    &&& self@.primary.is_some()
                    &&& 0 <= self@.primary.unwrap() < self.spec_instances().len()
                    &&& *inst == self.spec_instances()[self@.primary.unwrap()]
                    &&& inst.role == InstanceRole::Primary
                },
                None => self@.primary.is_none() || self@.primary.unwrap() >= self@.roles.len()
                    || self@.roles[self@.primary.unwrap()] != InstanceRole::Primary,
            },
    {
        match self.primary_idx {
            None => None,
            Some(idx) => {
                if idx >= self.instances.len() {
                    return None;
                }
                let inst = &self.instances[idx];
                if inst.role == InstanceRole::Primary {
                    Some(inst)
                } else {
                    None
                }
            },
        }
    }

    /// The number of instances that run.
    pub fn alive_count(&self, alive: &[bool]) -> (n: usize)
        ensures
            n == spec_alive_count(alive@, alive@.len() as int),
    {
        let len: usize = alive.len();
        let mut n: usize = 0;
        let mut i: usize = 0;
        while i < len
            invariant
                i <= len,
                len == alive@.len(),
                n <= i,
                n == spec_alive_count(alive@, i as int),
            decreases len - i,
        {
            if alive[i] {
                n = n + 1;
            }
            i = i + 1;
        }
        n
    }

    /// The instances whose role is Dead, in order: the ones that are due to
    /// be spawned again.
    pub fn dead_instances(&self) -> (dead: Vec<usize>)
        ensures
            forall|k: int| 0 <= k < dead@.len() ==> dead@[k] < self@.roles.len() && self@.roles[dead@[k] as int] == InstanceRole::Dead,
            forall|j: int|
                0 <= j < self@.roles.len() && self@.roles[j] == InstanceRole::Dead ==> exists|k: int|
                    0 <= k < dead@.len() && #[trigger] dead@[k] == j,
            forall|k: int, l: int| 0 <= k < l < dead@.len() ==> dead@[k] < dead@[l],
    {
        let len: usize = self.instances.len();
        let mut dead: Vec<usize> = Vec::new();
        let mut i: usize = 0;
        while i < len
            invariant
                i <= len,
                len == self.instances@.len(),
                forall|k: int| 0 <= k < dead@.len() ==> dead@[k] < i && self@.roles[dead@[k] as int] == InstanceRole::Dead,
                forall|j: int|
                    0 <= j < i && self@.roles[j] == InstanceRole::Dead ==> exists|k: int|
                        0 <= k < dead@.len() && #[trigger] dead@[k] == j,
                forall|k: int, l: int| 0 <= k < l < dead@.len() ==> dead@[k] < dead@[l],
            decreases len - i,
        {
            if self.instances[i].role == InstanceRole::Dead {
                let ghost before = dead@;
                dead.push(i);
                assert forall|j: int|
                    0 <= j < i + 1 && self@.roles[j] == InstanceRole::Dead implies exists|k: int|
                    0 <= k < dead@.len() && #[trigger] dead@[k] == j by {
                    if j < i {
                        let k = choose|k: int| 0 <= k < before.len() && #[trigger] before[k] == j;
                        assert(dead@[k] == j);
                    } else {
                        assert(dead@[before.len() as int] == j);
                    }
                }
            }
            i = i + 1;
        }
        dead
    }

    /// Records that the instance `index` was spawned as `proc` and appeared
    /// in the registry as `entry`: it stands by. Where the instance was the
    /// primary, the group has none until the next election.
    pub fn instance_spawned(&mut self, index: usize, proc: ProcessHandle, entry: ServiceEntry)
        requires
            old(self).inv(),
            index < old(self)@.roles.len(),
        ensures
            final(self).inv(),
            final(self).spec_config() == old(self).spec_config(),
            final(self)@.roles == old(self)@.roles.update(index as int, InstanceRole::Standby),
            final(self).spec_instances()[index as int].id == old(self).spec_instances()[index as int].id,
            final(self).spec_instances()[index as int].instance_name == old(self).spec_instances()[index as int].instance_name,
            forall|j: int|
                0 <= j < old(self).spec_instances().len() && j != index ==> {
                    &&& (#[trigger] final(self).spec_instances()[j]).id == old(self).spec_instances()[j].id
                    &&& final(self).spec_instances()[j].proc == old(self).spec_instances()[j].proc
                    &&& final(self).spec_instances()[j].entry == old(self).spec_instances()[j].entry
                    &&& final(self).spec_instances()[j].instance_name == old(self).spec_instances()[j].instance_name
                },
            final(self)@.primary == if old(self)@.primary == Some(index as int) {
                None
            } else {
                old(self)@.primary
            },
            final(self).spec_instances().len() == old(self).spec_instances().len(),
            final(self).spec_instances()[index as int].proc == proc,
            final(self).spec_instances()[index as int].entry == entry,
    {
        self.instances[index].proc = proc;
        self.instances[index].entry = entry;
        self.instances[index].role = InstanceRole::Standby;
        if self.primary_idx == Some(index) {
            self.primary_idx = None;
        }
        assert(self@.roles =~= old(self)@.roles.update(index as int, InstanceRole::Standby));
    }

    /// Elects the primary: the first instance that runs. Returns whether one
    /// does; see [`spec_elect`].
    pub fn elect_primary(&mut self, alive: &[bool]) -> (elected: bool)
        requires
            alive@.len() == old(self)@.roles.len(),
        ensures
            final(self).inv(),
            final(self).spec_config() == old(self).spec_config(),
            final(self)@ == spec_elect(old(self)@, alive@),
            spec_same_instances(old(self).spec_instances(), final(self).spec_instances()),
            elected == final(self)@.primary.is_some(),
            elected == (spec_first_alive(alive@, 0) >= 0),
            elected == exists|j: int| 0 <= j < alive@.len() && alive@[j],
    {
        let len: usize = self.instances.len();
        self.primary_idx = None;
        let mut i: usize = 0;
        while i < len && !alive[i]
            invariant
                i <= len,
                len == self.instances@.len(),
                len == alive@.len(),
                len == old(self).instances@.len(),
                self.config == old(self).config,
                spec_same_instances(old(self).instances@, self.instances@),
                self.primary_idx.is_none(),
                spec_first_alive(alive@, 0) == spec_first_alive(alive@, i as int),
                forall|j: int| 0 <= j < i ==> !alive@[j],
                forall|j: int|
                    0 <= j < i ==> (#[trigger] self.instances@[j]).role == if old(self).instances@[j].role == InstanceRole::Primary {
                        InstanceRole::Dead
                    } else {
                        old(self).instances@[j].role
                    },
                forall|j: int| i <= j < len ==> (#[trigger] self.instances@[j]).role == old(self).instances@[j].role,
            decreases len - i,
        {
            if self.instances[i].role == InstanceRole::Primary {
                self.instances[i].role = InstanceRole::Dead;
            }
            i = i + 1;
        }
        if i == len {
            proof {
                assert(self@.roles =~= spec_elect(old(self)@, alive@).roles);
                assert forall|j: int| 0 <= j < alive@.len() implies !alive@[j] by {}
            }
            return false;
        }
        let first: usize = i;
        self.instances[first].role = InstanceRole::Primary;
        self.primary_idx = Some(first);
        let mut k: usize = first + 1;
        while k < len
            invariant
                first < k <= len,
                len == self.instances@.len(),
                len == alive@.len(),
                len == old(self).instances@.len(),
                self.config == old(self).config,
                spec_same_instances(old(self).instances@, self.instances@),
                self.primary_idx == Some(first),
                alive@[first as int],
                spec_first_alive(alive@, 0) == first,
                forall|j: int| 0 <= j < first ==> !alive@[j],
                forall|j: int|
                    0 <= j < k ==> (#[trigger] self.instances@[j]).role == spec_elect(
                        old(self)@,
                        alive@,
                    ).roles[j],
                forall|j: int| k <= j < len ==> (#[trigger] self.instances@[j]).role == old(self).instances@[j].role,
            decreases len - k,
        {
            if alive[k] {
                self.instances[k].role = InstanceRole::Standby;
            } else if self.instances[k].role == InstanceRole::Primary {
                self.instances[k].role = InstanceRole::Dead;
            }
            k = k + 1;
        }
        proof {
            assert(self@.roles =~= spec_elect(old(self)@, alive@).roles);
        }
        true
    }

    /// Checks the health of the group: every instance that does not run is
    /// marked Dead, and if a primary died, the next is elected. Returns
    /// whether that failover took place.
    pub fn health_check(&mut self, alive: &[bool]) -> (failover: bool)
        requires
            alive@.len() == old(self)@.roles.len(),
        ensures
            final(self).spec_config() == old(self).spec_config(),
            failover == spec_primary_died(old(self)@.roles, alive@),
            final(self)@ == spec_health_check(old(self)@, alive@),
            spec_same_instances(old(self).spec_instances(), final(self).spec_instances()),
            old(self).inv() ==> final(self).inv(),
    {
        let len: usize = self.instances.len();
        let mut failover_needed: bool = false;
        let mut i: usize = 0;
        while i < len
            invariant
                i <= len,
                len == self.instances@.len(),
                len == alive@.len(),
                len == old(self).instances@.len(),
                self.config == old(self).config,
                spec_same_instances(old(self).instances@, self.instances@),
                self.primary_idx == old(self).primary_idx,
                failover_needed == exists|j: int|
                    0 <= j < i && #[trigger] old(self)@.roles[j] == InstanceRole::Primary && !alive@[j],
                forall|j: int|
                    0 <= j < i ==> (#[trigger] self.instances@[j]).role == spec_mark_dead(
                        old(self)@.roles,
                        alive@,
                    )[j],
                forall|j: int| i <= j < len ==> (#[trigger] self.instances@[j]).role == old(self).instances@[j].role,
            decreases len - i,
        {
            if self.instances[i].role != InstanceRole::Dead && !alive[i] {
                if self.instances[i].role == InstanceRole::Primary {
                    assert(old(self)@.roles[i as int] == InstanceRole::Primary && !alive@[i as int]);
                    failover_needed = true;
                }
                self.instances[i].role = InstanceRole::Dead;
            }
            i = i + 1;
        }
        assert(self@.roles =~= spec_mark_dead(old(self)@.roles, alive@));
        if failover_needed {
            let _ = self.elect_primary(alive);
            return true;
        }
        proof {
            if old(self).inv() {
                assert forall|j: int| 0 <= j < self@.roles.len() implies ((#[trigger] self@.roles[j])
                    == InstanceRole::Primary <==> self@.primary == Some(j)) by {
                    assert(old(self)@.roles[j] == InstanceRole::Primary <==> old(self)@.primary
                        == Some(j));
                    if old(self)@.roles[j] == InstanceRole::Primary {
                        assert(alive@[j]);
                    }
                }
            }
        }
        false
    }

    /// Forces a failover: the primary is marked Dead, and the next is
    /// elected from the instances that run after the old primary was killed.
    /// Returns whether one was elected.
    pub fn force_failover(&mut self, alive: &[bool]) -> (elected: bool)
        requires
            alive@.len() == old(self)@.roles.len(),
        ensures
            final(self).inv(),
            final(self).spec_config() == old(self).spec_config(),
            final(self)@ == spec_force_failover(old(self)@, alive@),
            spec_same_instances(old(self).spec_instances(), final(self).spec_instances()),
            elected == final(self)@.primary.is_some(),
            elected == exists|j: int| 0 <= j < alive@.len() && alive@[j],
    {
        match self.primary_idx {
            Some(idx) => {
                if idx < self.instances.len() {
                    self.instances[idx].role = InstanceRole::Dead;
                    assert(self@.roles =~= old(self)@.roles.update(idx as int, InstanceRole::Dead));
                }
            },
            None => {},
        }
        self.elect_primary(alive)
    }

    /// Stops the group: every instance is Dead and there is no primary.
    pub fn stop(&mut self)
        ensures
            final(self).inv(),
            final(self).spec_config() == old(self).spec_config(),
            final(self)@.primary.is_none(),
            final(self)@.roles.len() == old(self)@.roles.len(),
            spec_same_instances(old(self).spec_instances(), final(self).spec_instances()),
            forall|j: int|
                0 <= j < final(self)@.roles.len() ==> #[trigger] final(self)@.roles[j]
                    == InstanceRole::Dead,
    {
        let len: usize = self.instances.len();
        let mut i: usize = 0;
        while i < len
            invariant
                i <= len,
                len == self.instances@.len(),
                len == old(self).instances@.len(),
                self.config == old(self).config,
                spec_same_instances(old(self).instances@, self.instances@),
                forall|j: int| 0 <= j < i ==> (#[trigger] self.instances@[j]).role == InstanceRole::Dead,
            decreases len - i,
        {
            self.instances[i].role = InstanceRole::Dead;
            i = i + 1;
        }
        self.primary_idx = None;
    }
}

/// In a group with a running instance an election leaves exactly one
/// primary, and that one runs.
pub proof fn lemma_elect_one_primary(v: GroupView, alive: Seq<bool>)
    requires
        alive.len() == v.roles.len(),
        exists|j: int| 0 <= j < alive.len() && alive[j],
    ensures
        ({
            let e = spec_elect(v, alive);
            &&& spec_group_inv(e)
            &&& e.primary.is_some()
            &&& alive[e.primary.unwrap()]
            &&& e.roles[e.primary.unwrap()] == InstanceRole::Primary
            &&& forall|j: int|
                0 <= j < e.roles.len() && j != e.primary.unwrap() ==> #[trigger] e.roles[j]
                    != InstanceRole::Primary
        }),
{
    let j = choose|j: int| 0 <= j < alive.len() && alive[j];
    lemma_first_alive(alive, 0, j);
}

/// Where an instance runs, the first that does is found.
pub proof fn lemma_first_alive(alive: Seq<bool>, from: int, at: int)
    requires
        0 <= from <= at < alive.len(),
        alive[at],
    ensures
        from <= spec_first_alive(alive, from) <= at,
        alive[spec_first_alive(alive, from)],
    decreases alive.len() - from,
{
    if !alive[from] {
        lemma_first_alive(alive, from + 1, at);
    }
}

/// A health check keeps at most one primary, and where the primary died and
/// an instance runs, there is exactly one primary again.
pub proof fn lemma_health_check_primary(v: GroupView, alive: Seq<bool>)
    requires
        spec_group_inv(v),
        alive.len() == v.roles.len(),
    ensures
        spec_group_inv(spec_health_check(v, alive)),
        spec_primary_died(v.roles, alive) && (exists|j: int| 0 <= j < alive.len() && alive[j])
            ==> spec_health_check(v, alive).primary.is_some(),
        v.primary.is_some() && !spec_primary_died(v.roles, alive) ==> spec_health_check(
            v,
            alive,
        ).primary == v.primary,
{
    let marked = GroupView { roles: spec_mark_dead(v.roles, alive), primary: v.primary };
    if spec_primary_died(v.roles, alive) {
        if exists|j: int| 0 <= j < alive.len() && alive[j] {
            lemma_elect_one_primary(marked, alive);
        } else {
            assert forall|j: int| 0 <= j < alive.len() implies !alive[j] by {}
            lemma_no_alive(alive, 0);
        }
    } else {
        assert forall|j: int| 0 <= j < marked.roles.len() implies ((#[trigger] marked.roles[j])
            == InstanceRole::Primary <==> marked.primary == Some(j)) by {
            assert(v.roles[j] == InstanceRole::Primary <==> v.primary == Some(j));
            if v.roles[j] == InstanceRole::Primary {
                assert(alive[j]);
            }
        }
    }
}

/// Where no instance runs, none is found.
pub proof fn lemma_no_alive(alive: Seq<bool>, from: int)
    requires
        0 <= from,
        forall|j: int| 0 <= j < alive.len() ==> !alive[j],
    ensures
        spec_first_alive(alive, from) == -1,
    decreases alive.len() - from,
{
    if from < alive.len() {
        lemma_no_alive(alive, from + 1);
    }
}

} // verus!
