use pods::connection_manager::{
    connection_from_info, is_local_url, load_step, ClientChange, Connection, ConnectError, ConnectionInfo,
    ConnectionManager, ItemsChanged, LoadStep, PingOutcome, Removed, SetClientFromOutcome,
    SetClientFromStep, TryConnectOutcome,
};

fn info(name: &str, url: &str, is_local: bool) -> ConnectionInfo {
    ConnectionInfo { name: name.to_string(), url: url.to_string(), is_local }
}

fn fresh(name: &str, url: &str, is_local: bool) -> Connection {
    Connection { name: name.to_string(), url: url.to_string(), is_local, connecting: false, active: false }
}

fn loaded_manager() -> ConnectionManager {
    let mut m = ConnectionManager::new();
    m.setup(vec![
        ("uuid-a".to_string(), info("Local", "unix:///run/podman/podman.sock", true)),
        ("uuid-b".to_string(), info("Remote", "tcp://10.0.0.2:8080", false)),
    ]);
    m
}

#[test]
fn new_manager_is_empty() {
    let m = ConnectionManager::new();
    assert_eq!(m.n_items(), 0);
    assert_eq!(m.item(0), None);
    assert_eq!(m.client(), None);
    assert_eq!(m.position_by_uuid("uuid-a"), u32::MAX);
    assert_eq!(m.connection_by_uuid("uuid-a"), None);
    assert!(!m.is_connecting());
    assert!(!m.contains_local_connection());
    assert!(m.snapshot().is_empty());
}

#[test]
fn setup_adds_stored_connections_in_order() {
    let mut m = ConnectionManager::new();
    let outcome = m.setup(vec![
        ("uuid-a".to_string(), info("Local", "unix:///run/podman/podman.sock", true)),
        ("uuid-b".to_string(), info("Remote", "tcp://10.0.0.2:8080", false)),
    ]);
    assert_eq!(outcome.changed, ItemsChanged { position: 0, removed: 0, added: 2 });
    assert!(outcome.connect_last_used);
    assert_eq!(m.n_items(), 2);
    assert_eq!(m.item(0), Some(("uuid-a".to_string(), fresh("Local", "unix:///run/podman/podman.sock", true))));
    assert_eq!(m.item(1), Some(("uuid-b".to_string(), fresh("Remote", "tcp://10.0.0.2:8080", false))));
    assert_eq!(m.item(2), None);
}

#[test]
fn setup_of_nothing_asks_no_connection() {
    let mut m = ConnectionManager::new();
    let outcome = m.setup(Vec::new());
    assert_eq!(outcome.changed, ItemsChanged { position: 0, removed: 0, added: 0 });
    assert!(!outcome.connect_last_used);
}

#[test]
fn setup_on_a_filled_list_reports_the_tail() {
    let mut m = loaded_manager();
    let outcome = m.setup(vec![
        ("uuid-b".to_string(), info("Renamed", "tcp://10.0.0.3:8080", false)),
        ("uuid-c".to_string(), info("Third", "tcp://10.0.0.4:8080", false)),
    ]);
    // uuid-b keeps its place and takes the new value, uuid-c is appended.
    assert_eq!(m.n_items(), 3);
    assert_eq!(outcome.changed, ItemsChanged { position: 1, removed: 0, added: 2 });
    assert_eq!(m.item(1).unwrap().1.name, "Renamed");
    assert_eq!(m.position_by_uuid("uuid-c"), 2);
}

#[test]
fn load_then_snapshot_round_trip() {
    let stored = vec![
        ("uuid-a".to_string(), info("Local", "unix:///run/podman/podman.sock", true)),
        ("uuid-b".to_string(), info("Remote", "tcp://10.0.0.2:8080", false)),
    ];
    let mut m = ConnectionManager::new();
    m.setup(vec![
        ("uuid-a".to_string(), info("Local", "unix:///run/podman/podman.sock", true)),
        ("uuid-b".to_string(), info("Remote", "tcp://10.0.0.2:8080", false)),
    ]);
    assert_eq!(m.snapshot(), stored);
}

#[test]
fn load_step_cases() {
    assert_eq!(load_step(false, false), LoadStep::CreateConfigDir);
    assert_eq!(load_step(false, true), LoadStep::CreateConfigDir);
    assert_eq!(load_step(true, true), LoadStep::ReadFile);
    assert_eq!(load_step(true, false), LoadStep::NothingStored);
}

#[test]
fn connection_from_info_is_fresh() {
    assert_eq!(connection_from_info(info("Local", "unix:///x", true)), fresh("Local", "unix:///x", true));
}

#[test]
fn name_taken_is_refused() {
    let m = loaded_manager();
    assert_eq!(m.check_name_available("Remote"), Err(ConnectError::NameTaken));
    assert_eq!(m.check_name_available("Other"), Ok(()));
}

#[test]
fn try_connect_success_adds_and_selects() {
    let mut m = loaded_manager();
    assert_eq!(m.check_name_available("New"), Ok(()));
    assert!(m.set_creating_new_connection(true));
    assert!(m.is_connecting());
    let _registration = m.abort_registration();
    let finish = m.finish_try_connect("uuid-c".to_string(), info("New", "tcp://10.0.0.5:8080", false), PingOutcome::Succeeded);
    assert!(finish.connecting_changed);
    assert!(!m.is_connecting());
    assert_eq!(
        finish.outcome,
        TryConnectOutcome::Connected {
            changed: ItemsChanged { position: 2, removed: 0, added: 1 },
            client: ClientChange::Changed { remember: Some("uuid-c".to_string()) },
        }
    );
    assert_eq!(m.client(), Some("uuid-c".to_string()));
    assert_eq!(m.position_by_uuid("uuid-c"), 2);
    let c = m.connection_by_uuid("uuid-c").unwrap();
    assert!(c.active);
    assert!(!m.item(0).unwrap().1.active);
    assert!(!m.item(1).unwrap().1.active);
    assert_eq!(m.check_name_available("New"), Err(ConnectError::NameTaken));
}

#[test]
fn try_connect_failure_or_abort_changes_nothing() {
    let mut m = loaded_manager();
    m.set_creating_new_connection(true);
    let finish = m.finish_try_connect("uuid-c".to_string(), info("New", "tcp://x", false), PingOutcome::Failed);
    assert_eq!(finish.outcome, TryConnectOutcome::Failed);
    assert!(finish.connecting_changed);
    assert_eq!(m.n_items(), 2);
    assert_eq!(m.client(), None);

    let finish = m.finish_try_connect("uuid-c".to_string(), info("New", "tcp://x", false), PingOutcome::Aborted);
    assert_eq!(finish.outcome, TryConnectOutcome::Aborted);
    assert!(!finish.connecting_changed);
    assert_eq!(m.n_items(), 2);
}

#[test]
fn try_connect_with_present_uuid_keeps_its_place() {
    let mut m = loaded_manager();
    let finish = m.finish_try_connect("uuid-a".to_string(), info("Again", "unix:///y", true), PingOutcome::Succeeded);
    assert_eq!(
        finish.outcome,
        TryConnectOutcome::Connected {
            changed: ItemsChanged { position: 0, removed: 0, added: 1 },
            client: ClientChange::Changed { remember: Some("uuid-a".to_string()) },
        }
    );
    assert_eq!(m.n_items(), 2);
    assert_eq!(m.item(0).unwrap().1.name, "Again");
    assert!(m.item(0).unwrap().1.active);
}

#[test]
fn remove_connection_of_client_unsets_it() {
    let mut m = loaded_manager();
    assert_eq!(m.set_client_from_start("uuid-b"), SetClientFromStep::Ping);
    m.finish_set_client_from("uuid-b", PingOutcome::Succeeded);
    assert_eq!(m.client(), Some("uuid-b".to_string()));
    let removed = m.remove_connection("uuid-b");
    assert_eq!(
        removed,
        Some(Removed {
            changed: ItemsChanged { position: 1, removed: 1, added: 0 },
            client: ClientChange::Changed { remember: None },
        })
    );
    assert_eq!(m.client(), None);
    assert_eq!(m.position_by_uuid("uuid-b"), u32::MAX);
    assert_eq!(m.connection_by_uuid("uuid-b"), None);
    assert_eq!(m.n_items(), 1);
}

#[test]
fn remove_other_connection_keeps_client_and_shifts() {
    let mut m = loaded_manager();
    m.set_client_from_start("uuid-b");
    m.finish_set_client_from("uuid-b", PingOutcome::Succeeded);
    let removed = m.remove_connection("uuid-a");
    assert_eq!(
        removed,
        Some(Removed { changed: ItemsChanged { position: 0, removed: 1, added: 0 }, client: ClientChange::Unchanged })
    );
    assert_eq!(m.client(), Some("uuid-b".to_string()));
    assert_eq!(m.position_by_uuid("uuid-b"), 0);
    assert_eq!(m.remove_connection("uuid-z"), None);
}

#[test]
fn set_client_from_steps() {
    let mut m = loaded_manager();
    assert_eq!(m.set_client_from_start("uuid-z"), SetClientFromStep::NotFound);
    assert_eq!(m.set_client_from_start("uuid-a"), SetClientFromStep::Ping);
    assert!(m.is_connecting());
    assert!(m.connection_by_uuid("uuid-a").unwrap().connecting);
    assert_eq!(m.set_client_from_start("uuid-a"), SetClientFromStep::AlreadyConnecting);
    let outcome = m.finish_set_client_from("uuid-a", PingOutcome::Succeeded);
    assert_eq!(outcome, SetClientFromOutcome::Connected(ClientChange::Changed { remember: Some("uuid-a".to_string()) }));
    assert!(!m.is_connecting());
    let a = m.connection_by_uuid("uuid-a").unwrap();
    assert!(a.active && !a.connecting);
    assert_eq!(m.set_client_from_start("uuid-a"), SetClientFromStep::AlreadyClient);
}

#[test]
fn set_client_from_failure_and_abort() {
    let mut m = loaded_manager();
    m.set_client_from_start("uuid-a");
    assert_eq!(m.finish_set_client_from("uuid-a", PingOutcome::Failed), SetClientFromOutcome::Failed);
    assert_eq!(m.client(), None);
    assert!(!m.connection_by_uuid("uuid-a").unwrap().connecting);
    m.set_client_from_start("uuid-a");
    assert_eq!(m.finish_set_client_from("uuid-a", PingOutcome::Aborted), SetClientFromOutcome::Aborted);
    assert_eq!(m.client(), None);
    assert!(!m.is_connecting());
}

#[test]
fn switching_client_moves_the_active_flag() {
    let mut m = loaded_manager();
    m.set_client_from_start("uuid-a");
    m.finish_set_client_from("uuid-a", PingOutcome::Succeeded);
    m.set_client_from_start("uuid-b");
    m.finish_set_client_from("uuid-b", PingOutcome::Succeeded);
    assert!(!m.connection_by_uuid("uuid-a").unwrap().active);
    assert!(m.connection_by_uuid("uuid-b").unwrap().active);
}

#[test]
fn unset_client_clears_active() {
    let mut m = loaded_manager();
    assert_eq!(m.unset_client(), ClientChange::Unchanged);
    m.set_client_from_start("uuid-a");
    m.finish_set_client_from("uuid-a", PingOutcome::Succeeded);
    assert_eq!(m.unset_client(), ClientChange::Changed { remember: None });
    assert_eq!(m.client(), None);
    assert!(!m.item(0).unwrap().1.active);
    assert!(!m.item(1).unwrap().1.active);
}

#[test]
fn set_client_directly() {
    let mut m = loaded_manager();
    assert_eq!(m.set_client(Some("uuid-b".to_string())), ClientChange::Changed { remember: Some("uuid-b".to_string()) });
    assert!(m.connection_by_uuid("uuid-b").unwrap().active);
    assert_eq!(m.set_client(None), ClientChange::Changed { remember: None });
    assert_eq!(m.set_client(None), ClientChange::Unchanged);
}

#[test]
fn creating_flag_reports_changes_only() {
    let mut m = ConnectionManager::new();
    assert!(!m.set_creating_new_connection(false));
    assert!(m.set_creating_new_connection(true));
    assert!(!m.set_creating_new_connection(true));
    assert!(m.is_connecting());
    assert!(m.set_creating_new_connection(false));
    assert!(!m.is_connecting());
}

#[test]
fn abort_takes_the_handle() {
    let mut m = ConnectionManager::new();
    assert!(m.abort().is_none());
    let (_registration, receipt) = m.abort_registration();
    assert!(receipt.is_none());
    assert!(m.abort().is_some());
    assert!(m.abort().is_none());
}

#[test]
fn abort_stops_the_registered_future() {
    let mut m = ConnectionManager::new();
    let (registration, _) = m.abort_registration();
    let task = futures::future::Abortable::new(futures::future::pending::<()>(), registration);
    assert!(m.abort().is_some());
    assert_eq!(futures::executor::block_on(task), Err(futures::future::Aborted));
}

#[test]
fn new_registration_aborts_the_previous_one() {
    let mut m = ConnectionManager::new();
    let (first, _) = m.abort_registration();
    let task = futures::future::Abortable::new(futures::future::pending::<()>(), first);
    let (_second, receipt) = m.abort_registration();
    assert!(receipt.is_some());
    assert_eq!(futures::executor::block_on(task), Err(futures::future::Aborted));
    assert!(m.abort().is_some());
}

#[test]
fn local_urls() {
    assert!(is_local_url("unix:///run/podman/podman.sock"));
    assert!(is_local_url("unix://"));
    assert!(!is_local_url("unix:/x"));
    assert!(!is_local_url("tcp://10.0.0.2:8080"));
    assert!(!is_local_url(""));
}

#[test]
fn local_connection_detected() {
    let m = loaded_manager();
    assert!(m.contains_local_connection());
    let mut remote_only = ConnectionManager::new();
    remote_only.setup(vec![("uuid-b".to_string(), info("Remote", "tcp://10.0.0.2:8080", false))]);
    assert!(!remote_only.contains_local_connection());
}

#[test]
fn position_and_item_agree() {
    let m = loaded_manager();
    let p = m.position_by_uuid("uuid-b");
    assert_eq!(p, 1);
    assert_eq!(m.item(p).unwrap().0, "uuid-b");
    assert_eq!(m.item(p).unwrap().1, m.connection_by_uuid("uuid-b").unwrap());
}

#[test]
fn single_active_connection() {
    let mut m = loaded_manager();
    m.set_client(Some("uuid-a".to_string()));
    m.set_client(Some("uuid-b".to_string()));
    let active = (0..m.n_items()).filter(|&i| m.item(i).unwrap().1.active).count();
    assert_eq!(active, 1);
}

#[test]
fn default_is_empty() {
    let m = ConnectionManager::default();
    assert_eq!(m.n_items(), 0);
    assert_eq!(m.client(), None);
    assert!(!m.is_connecting());
}
