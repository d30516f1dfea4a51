use libipc::proto::service_group::{
    spawn_poll, InstanceRole, ServiceGroup, ServiceGroupConfig, SpawnPoll,
};
use libipc::proto::{ProcessHandle, ServiceEntry};

fn roles(group: &ServiceGroup) -> Vec<InstanceRole> {
    group.instances().iter().map(|i| i.role).collect()
}

fn primaries(group: &ServiceGroup) -> usize {
    group.instances().iter().filter(|i| i.role == InstanceRole::Primary).count()
}

fn group_of(replicas: usize) -> ServiceGroup {
    let mut config = ServiceGroupConfig::new("audio_compute", "/bin/audio");
    config.replicas = replicas;
    ServiceGroup::new(config)
}

fn spawn_all(group: &mut ServiceGroup) {
    for i in 0..group.instances().len() {
        let name = group.instances()[i].instance_name.clone();
        let proc = ProcessHandle::spawned(1000 + i as u32, &name, "/bin/audio");
        let entry = ServiceEntry::filled(&name, "ctrl", "reply", 1000 + i as i32, 1);
        group.instance_spawned(i, proc, entry);
    }
}

#[test]
fn config_defaults() {
    let config = ServiceGroupConfig::new("audio_compute", "/bin/audio");
    assert_eq!(config.service_name, "audio_compute");
    assert_eq!(config.executable, "/bin/audio");
    assert_eq!(config.replicas, 2);
    assert!(config.auto_respawn);
    assert_eq!(config.spawn_timeout_ms, 5000);
}

#[test]
fn a_new_group_is_all_dead() {
    let group = group_of(3);
    assert_eq!(roles(&group), vec![InstanceRole::Dead; 3]);
    assert!(group.primary().is_none());
    let names: Vec<&str> = group.instances().iter().map(|i| i.instance_name.as_str()).collect();
    assert_eq!(names, vec!["audio_compute.0", "audio_compute.1", "audio_compute.2"]);
    assert_eq!(group.instances()[2].id, 2);
    assert!(!group.instances()[0].proc.valid());
    assert_eq!(group.dead_instances(), vec![0, 1, 2]);
    assert_eq!(group.config().replicas, 3);
}

#[test]
fn instance_names_count_in_decimal() {
    let group = group_of(12);
    assert_eq!(group.instances()[9].instance_name, "audio_compute.9");
    assert_eq!(group.instances()[10].instance_name, "audio_compute.10");
    assert_eq!(group.instances()[11].instance_name, "audio_compute.11");
}

#[test]
fn start_elects_the_first_that_runs() {
    let mut group = group_of(3);
    spawn_all(&mut group);
    assert_eq!(roles(&group), vec![InstanceRole::Standby; 3]);
    assert!(group.elect_primary(&[true, true, true]));
    assert_eq!(roles(&group), vec![InstanceRole::Primary, InstanceRole::Standby, InstanceRole::Standby]);
    assert_eq!(group.primary().expect("primary").id, 0);
    assert_eq!(group.primary_index(), Some(0));
    assert_eq!(group.alive_count(&[true, true, true]), 3);
}

#[test]
fn election_without_a_running_instance_fails() {
    let mut group = group_of(2);
    assert!(!group.elect_primary(&[false, false]));
    assert!(group.primary().is_none());
    assert_eq!(primaries(&group), 0);
}

#[test]
fn election_skips_the_dead() {
    let mut group = group_of(3);
    spawn_all(&mut group);
    assert!(group.elect_primary(&[false, true, true]));
    assert_eq!(group.primary().expect("primary").id, 1);
    assert_eq!(roles(&group), vec![InstanceRole::Standby, InstanceRole::Primary, InstanceRole::Standby]);
}

#[test]
fn health_check_without_a_death_changes_nothing() {
    let mut group = group_of(2);
    spawn_all(&mut group);
    group.elect_primary(&[true, true]);
    assert!(!group.health_check(&[true, true]));
    assert_eq!(roles(&group), vec![InstanceRole::Primary, InstanceRole::Standby]);
    assert!(group.dead_instances().is_empty());
}

#[test]
fn health_check_marks_a_dead_standby() {
    let mut group = group_of(3);
    spawn_all(&mut group);
    group.elect_primary(&[true, true, true]);
    assert!(!group.health_check(&[true, false, true]), "the primary lives: no failover");
    assert_eq!(roles(&group), vec![InstanceRole::Primary, InstanceRole::Dead, InstanceRole::Standby]);
    assert_eq!(group.dead_instances(), vec![1]);
    assert_eq!(primaries(&group), 1);
}

#[test]
fn health_check_fails_over_when_the_primary_dies() {
    let mut group = group_of(3);
    spawn_all(&mut group);
    group.elect_primary(&[true, true, true]);
    assert!(group.health_check(&[false, true, true]));
    assert_eq!(roles(&group), vec![InstanceRole::Dead, InstanceRole::Primary, InstanceRole::Standby]);
    assert_eq!(group.primary().expect("primary").id, 1);
    assert_eq!(primaries(&group), 1);
    assert_eq!(group.dead_instances(), vec![0]);
}

#[test]
fn health_check_with_everyone_dead_leaves_no_primary() {
    let mut group = group_of(2);
    spawn_all(&mut group);
    group.elect_primary(&[true, true]);
    assert!(group.health_check(&[false, false]));
    assert_eq!(roles(&group), vec![InstanceRole::Dead, InstanceRole::Dead]);
    assert!(group.primary().is_none());
}

#[test]
fn forced_failover_promotes_the_standby() {
    let mut group = group_of(2);
    spawn_all(&mut group);
    group.elect_primary(&[true, true]);
    assert_eq!(group.primary_index(), Some(0));
    // the caller kills instance 0, and it is gone
    assert!(group.force_failover(&[false, true]));
    assert_eq!(roles(&group), vec![InstanceRole::Dead, InstanceRole::Primary]);
    assert_eq!(primaries(&group), 1);
    // the killed one comes back as a standby
    let proc = ProcessHandle::spawned(2000, "audio_compute.0", "/bin/audio");
    group.instance_spawned(0, proc, ServiceEntry::default());
    assert_eq!(roles(&group), vec![InstanceRole::Standby, InstanceRole::Primary]);
    assert_eq!(group.instances()[0].proc.pid, 2000);
}

#[test]
fn forced_failover_of_the_last_instance_leaves_none() {
    let mut group = group_of(1);
    spawn_all(&mut group);
    group.elect_primary(&[true]);
    assert!(!group.force_failover(&[false]));
    assert!(group.primary().is_none());
    assert_eq!(roles(&group), vec![InstanceRole::Dead]);
}

#[test]
fn an_election_never_leaves_two_primaries() {
    let mut group = group_of(3);
    spawn_all(&mut group);
    group.elect_primary(&[true, true, true]);
    // the old primary is gone and nobody has checked yet
    assert!(group.elect_primary(&[false, true, true]));
    assert_eq!(primaries(&group), 1);
    assert_eq!(roles(&group), vec![InstanceRole::Dead, InstanceRole::Primary, InstanceRole::Standby]);
}

#[test]
fn stop_leaves_everyone_dead() {
    let mut group = group_of(3);
    spawn_all(&mut group);
    group.elect_primary(&[true, true, true]);
    group.stop();
    assert_eq!(roles(&group), vec![InstanceRole::Dead; 3]);
    assert!(group.primary().is_none());
    assert_eq!(group.primary_index(), None);
}

#[test]
fn alive_count_counts() {
    let group = group_of(4);
    assert_eq!(group.alive_count(&[true, false, true, false]), 2);
    assert_eq!(group.alive_count(&[false; 4]), 0);
    assert!(group.instances()[0].is_alive(true) == false, "an instance without a process does not run");
}

#[test]
fn a_spawned_instance_is_polled_for() {
    assert_eq!(spawn_poll(true, false, false, true), SpawnPoll::Registered);
    assert_eq!(spawn_poll(false, false, false, false), SpawnPoll::Failed);
    assert_eq!(spawn_poll(false, false, true, true), SpawnPoll::Failed);
    assert_eq!(spawn_poll(false, false, true, false), SpawnPoll::Wait);
    assert_eq!(spawn_poll(false, true, false, false), SpawnPoll::Wait);
}

#[test]
fn roles_change_and_nothing_else() {
    let mut group = group_of(3);
    spawn_all(&mut group);
    let before: Vec<(usize, u32, i32, String)> = group
        .instances()
        .iter()
        .map(|i| (i.id, i.proc.pid, i.entry.pid, i.instance_name.clone()))
        .collect();
    group.elect_primary(&[true, true, true]);
    group.health_check(&[false, true, true]);
    group.force_failover(&[false, false, true]);
    group.stop();
    let after: Vec<(usize, u32, i32, String)> = group
        .instances()
        .iter()
        .map(|i| (i.id, i.proc.pid, i.entry.pid, i.instance_name.clone()))
        .collect();
    assert_eq!(before, after);
    assert_eq!(group.config().service_name, "audio_compute");
}
