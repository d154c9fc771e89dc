use gidterm::ports::{PortEntry, PortError, PortManager, PortProbes, PortRegistry, PortScan, PortStatus};

fn nothing_busy() -> PortScan {
    PortScan::new(vec![])
}

#[test]
fn test_port_allocation() {
    let mut registry = PortRegistry::new();
    let scan = nothing_busy();

    // First allocation should get preferred port
    let port1 = registry.get_or_allocate("project1", Some(3000), &scan, 1).unwrap();
    assert_eq!(port1, 3000);

    // Same project should get same port
    let port1_again = registry.get_or_allocate("project1", Some(4000), &scan, 2).unwrap();
    assert_eq!(port1_again, 3000);

    // Different project should get different port
    let port2 = registry.get_or_allocate("project2", Some(3000), &scan, 3).unwrap();
    assert_ne!(port2, 3000); // 3000 is taken
}

#[test]
fn port_allocation_scenario() {
    let mut registry = PortRegistry::new();
    let scan = nothing_busy();
    assert_eq!(registry.get_or_allocate("projA", Some(3000), &scan, 10), Ok(3000));
    let b = registry.get_or_allocate("projB", Some(3000), &scan, 11).unwrap();
    assert_eq!(b, 3001);
    assert!(b != 3000 && (3000..=3999).contains(&b));
    assert_eq!(registry.get_or_allocate("projA", Some(3000), &scan, 12), Ok(3000));
    assert!(registry.needs_save());
}

#[test]
fn busy_ports_are_passed_over() {
    let mut registry = PortRegistry::new();
    let scan = PortScan::new(vec![3000, 3001, 5000]);
    assert_eq!(registry.get_or_allocate("a", Some(5000), &scan, 0), Ok(3002));
    assert_eq!(registry.get_or_allocate("b", None, &scan, 0), Ok(3003));
    assert_eq!(registry.get_or_allocate("c", Some(8080), &scan, 0), Ok(8080));
}

#[test]
fn exhausted_range_is_an_error() {
    let mut registry = PortRegistry::new();
    let scan = PortScan::new((3000..=3999).collect());
    assert_eq!(registry.get_or_allocate("a", None, &scan, 0), Err(PortError::Exhausted));
    assert_eq!(PortError::Exhausted.message(), "No available ports in range 3000-3999");
    assert!(!registry.needs_save());
    assert_eq!(registry.allocations().len(), 0);
}

#[test]
fn a_port_taken_from_outside_is_replaced_unless_active() {
    let mut registry = PortRegistry::new();
    assert_eq!(registry.get_or_allocate("a", Some(3000), &nothing_busy(), 1), Ok(3000));
    let taken = PortScan::new(vec![3000]);
    assert_eq!(registry.get_status("a", &taken), PortStatus::ExternallyUsed);
    registry.mark_active("a", Some(42), 5);
    assert_eq!(registry.get_status("a", &taken), PortStatus::Active);
    assert_eq!(registry.get_or_allocate("a", None, &taken, 6), Ok(3000));
    registry.mark_inactive("a");
    assert_eq!(registry.get_or_allocate("a", None, &taken, 7), Ok(3001));
    let entry = registry.allocations().get("a").unwrap();
    assert_eq!(entry.port, 3001);
    assert_eq!(entry.allocated_at, 7);
    assert_eq!(registry.allocations().len(), 1);
}

#[test]
fn status_follows_the_state_machine() {
    let mut registry = PortRegistry::new();
    let free = nothing_busy();
    assert_eq!(registry.get_status("p", &free), PortStatus::Available);
    registry.get_or_allocate("p", None, &free, 100).unwrap();
    assert_eq!(registry.get_status("p", &free), PortStatus::Reserved);
    registry.mark_active("p", Some(7), 101);
    {
        let e = registry.allocations().get("p").unwrap();
        assert!(e.active);
        assert_eq!(e.pid, Some(7));
        assert_eq!(e.last_active, Some(101));
        assert_eq!(e.allocated_at, 100);
    }
    assert_eq!(registry.get_status("p", &free), PortStatus::Active);
    registry.mark_inactive("p");
    {
        let e = registry.allocations().get("p").unwrap();
        assert!(!e.active);
        assert_eq!(e.pid, None);
        assert_eq!(e.last_active, None);
    }
    assert_eq!(registry.get_status("p", &free), PortStatus::Reserved);
    registry.release("p");
    assert_eq!(registry.get_status("p", &free), PortStatus::Available);
    // the port can be handed out again
    assert_eq!(registry.get_or_allocate("q", Some(3000), &free, 102), Ok(3000));
}

#[test]
fn listing_is_by_port() {
    let mut registry = PortRegistry::new();
    let free = nothing_busy();
    registry.get_or_allocate("c", Some(3500), &free, 0).unwrap();
    registry.get_or_allocate("a", Some(3100), &free, 0).unwrap();
    registry.get_or_allocate("b", Some(3300), &free, 0).unwrap();
    let ports: Vec<u16> = registry.list_allocations().iter().map(|e| e.port).collect();
    assert_eq!(ports, vec![3100, 3300, 3500]);
    let names: Vec<&str> = registry.list_allocations().iter().map(|e| e.project.as_str()).collect();
    assert_eq!(names, vec!["a", "b", "c"]);
}

#[test]
fn cleanup_drops_stale_entries_only() {
    let mut registry = PortRegistry::new();
    let free = nothing_busy();
    registry.get_or_allocate("a", Some(3000), &free, 0).unwrap();
    registry.get_or_allocate("b", Some(3001), &free, 0).unwrap();
    registry.get_or_allocate("c", Some(3002), &free, 0).unwrap();
    registry.mark_active("b", None, 1);
    registry.mark_saved();
    let scan = PortScan::new(vec![3000, 3001]);
    assert_eq!(registry.cleanup_stale(&scan), 1);
    assert!(registry.needs_save());
    assert!(registry.allocations().get("a").is_none());
    assert!(registry.allocations().get("b").is_some());
    assert!(registry.allocations().get("c").is_some());
    registry.mark_saved();
    assert_eq!(registry.cleanup_stale(&scan), 0);
    assert!(!registry.needs_save());
    // the port of the dropped entry is free in the index again
    assert_eq!(registry.get_or_allocate("d", Some(3000), &free, 2), Ok(3000));
}

#[test]
fn refresh_forgets_dead_processes() {
    let mut registry = PortRegistry::new();
    let free = nothing_busy();
    registry.get_or_allocate("a", None, &free, 0).unwrap();
    registry.get_or_allocate("b", None, &free, 0).unwrap();
    registry.mark_active("a", Some(10), 1);
    registry.mark_active("b", Some(20), 1);
    registry.refresh_status(&vec![20]);
    let a = registry.allocations().get("a").unwrap();
    assert!(!a.active);
    assert_eq!(a.pid, None);
    let b = registry.allocations().get("b").unwrap();
    assert!(b.active);
    assert_eq!(b.pid, Some(20));
}

fn entry(project: &str, port: u16) -> PortEntry {
    PortEntry {
        port,
        project: project.to_string(),
        pid: None,
        active: false,
        allocated_at: 0,
        last_active: None,
        description: None,
    }
}

#[test]
fn loading_refuses_shared_ports_and_projects() {
    assert!(PortRegistry::from_entries(vec![entry("a", 3000), entry("b", 3001)]).is_some());
    assert!(PortRegistry::from_entries(vec![entry("a", 3000), entry("b", 3000)]).is_none());
    assert!(PortRegistry::from_entries(vec![entry("a", 3000), entry("a", 3001)]).is_none());
    let mut loaded = PortRegistry::from_entries(vec![entry("a", 3000)]).unwrap();
    assert_eq!(loaded.get_or_allocate("b", Some(3000), &nothing_busy(), 0), Ok(3001));
}

#[test]
fn manager_notes_ports_and_builds_the_environment() {
    let mut manager = PortManager::new(PortRegistry::new());
    let free = nothing_busy();
    assert_eq!(manager.get_port("web"), None);
    assert!(manager.get_env("web").is_empty());
    assert_eq!(manager.allocate("web", Some(3456), &free, 0), Ok(3456));
    assert_eq!(manager.get_port("web"), Some(3456));
    let env = manager.get_env("web");
    assert_eq!(env.get("PORT").map(|s| s.as_str()), Some("3456"));
    assert_eq!(env.get("GIDTERM_PORT").map(|s| s.as_str()), Some("3456"));
    assert_eq!(env.len(), 2);
    manager.activate("web", Some(1), 9);
    assert_eq!(manager.list()[0].pid, Some(1));
    manager.deactivate("web");
    assert_eq!(manager.list()[0].pid, None);
    assert_eq!(manager.cleanup(&PortScan::new(vec![3456])), 1);
    assert!(manager.list().is_empty());
}

#[test]
fn the_manager_keeps_what_it_noted_for_other_projects() {
    let mut manager = PortManager::new(PortRegistry::new());
    let free = nothing_busy();
    assert_eq!(manager.allocate("web", Some(3100), &free, 0), Ok(3100));
    assert_eq!(manager.allocate("api", Some(3200), &free, 0), Ok(3200));
    assert_eq!(manager.get_port("web"), Some(3100));
    assert_eq!(manager.get_port("api"), Some(3200));
    assert_eq!(manager.allocate("web", Some(3300), &free, 1), Ok(3100));
    assert_eq!(manager.get_port("api"), Some(3200));
    // a project of the registry that the session did not ask for has none
    let mut loaded = PortRegistry::new();
    loaded.get_or_allocate("old", Some(3500), &free, 0).unwrap();
    let mut session = PortManager::new(loaded);
    assert_eq!(session.get_port("old"), None);
    assert_eq!(session.allocate("new", None, &free, 1), Ok(3000));
    assert_eq!(session.get_port("old"), None);
    let full = PortScan::new((3000..=3999).collect());
    assert_eq!(session.allocate("late", None, &full, 2), Err(PortError::Exhausted));
    assert_eq!(session.get_port("late"), None);
    assert_eq!(session.get_port("new"), Some(3000));
}

/// Probes as the registry asks, against a machine on which the ports of
/// `busy` are bound; returns the ports that were probed, in order.
fn probe(registry: &PortRegistry, project: &str, preferred: Option<u16>, busy: &[u16]) -> (Vec<u16>, PortProbes) {
    let mut probes = PortProbes::new();
    let mut asked = Vec::new();
    while let Some(port) = registry.next_probe(project, preferred, &probes) {
        assert!(!asked.contains(&port));
        asked.push(port);
        probes.note(port, !busy.contains(&port));
    }
    (asked, probes)
}

#[test]
fn probing_stops_at_the_first_free_port() {
    let mut registry = PortRegistry::new();
    let busy = [3000u16, 3001, 5000];

    let (asked, probes) = probe(&registry, "a", Some(5000), &busy);
    assert_eq!(asked, vec![5000, 3000, 3001, 3002]);
    assert_eq!(registry.get_or_allocate("a", Some(5000), &probes.to_scan(), 0), Ok(3002));
    assert_eq!(
        PortRegistry::new().get_or_allocate("a", Some(5000), &PortScan::new(busy.to_vec()), 0),
        Ok(3002)
    );

    // A held port is passed over without a probe.
    let (asked, probes) = probe(&registry, "b", None, &busy);
    assert_eq!(asked, vec![3000, 3001, 3003]);
    assert_eq!(registry.get_or_allocate("b", None, &probes.to_scan(), 0), Ok(3003));

    // A free port that was asked for needs one probe.
    let (asked, probes) = probe(&registry, "c", Some(8080), &busy);
    assert_eq!(asked, vec![8080]);
    assert_eq!(registry.get_or_allocate("c", Some(8080), &probes.to_scan(), 0), Ok(8080));
}

#[test]
fn probing_looks_at_the_port_of_the_project_first() {
    let mut registry = PortRegistry::new();
    assert_eq!(registry.get_or_allocate("a", Some(3000), &nothing_busy(), 1), Ok(3000));

    let (asked, probes) = probe(&registry, "a", Some(4000), &[]);
    assert_eq!(asked, vec![3000]);
    assert_eq!(registry.get_or_allocate("a", Some(4000), &probes.to_scan(), 2), Ok(3000));

    let (asked, probes) = probe(&registry, "a", None, &[3000]);
    assert_eq!(asked, vec![3000, 3001]);
    assert_eq!(registry.get_or_allocate("a", None, &probes.to_scan(), 3), Ok(3001));

    registry.mark_active("a", Some(7), 4);
    let (asked, _) = probe(&registry, "a", None, &[3001]);
    assert_eq!(asked, Vec::<u16>::new());
}

#[test]
fn probes_keep_what_was_noted_first() {
    let mut probes = PortProbes::new();
    assert_eq!(probes.verdict(3000), None);
    probes.note(3000, false);
    probes.note(3001, true);
    probes.note(3000, true);
    assert_eq!(probes.verdict(3000), Some(false));
    assert_eq!(probes.verdict(3001), Some(true));
    assert_eq!(probes.verdict(3002), None);
    let scan = probes.to_scan();
    let mut registry = PortRegistry::new();
    assert_eq!(registry.get_or_allocate("a", None, &scan, 0), Ok(3001));
}

#[test]
fn probing_a_full_range_asks_each_port_once() {
    let registry = PortRegistry::new();
    let busy: Vec<u16> = (3000..=3999).collect();
    let (asked, probes) = probe(&registry, "a", None, &busy);
    assert_eq!(asked, busy);
    assert_eq!(PortRegistry::new().get_or_allocate("a", None, &probes.to_scan(), 0), Err(PortError::Exhausted));
}
