use db_client::connection::{ConnectionManager, InitEvent, PingOutcome};
use db_client::error::DbError;

#[test]
fn init_succeeds_exactly_once() {
    let mut m: ConnectionManager<u32> = ConnectionManager::new();
    assert!(m.get_handle().is_err());
    assert_eq!(m.init_client(InitEvent::PingOk(7)), Ok(()));
    assert_eq!(m.get_handle().unwrap(), &7);
    assert_eq!(
        m.init_client(InitEvent::PingOk(8)),
        Err(DbError::AlreadyInitialized)
    );
    assert_eq!(m.get_handle().unwrap(), &7);
}

#[test]
fn failed_attempts_leave_manager_eligible() {
    let mut m: ConnectionManager<u32> = ConnectionManager::new();
    assert_eq!(m.init_client(InitEvent::UriMissing), Err(DbError::ConfigMissing));
    assert_eq!(m.get_handle(), Err(DbError::NotInitialized));
    assert_eq!(
        m.init_client(InitEvent::UriInvalid("bad uri".to_string())),
        Err(DbError::ConfigInvalid("bad uri".to_string()))
    );
    assert_eq!(
        m.init_client(InitEvent::PingFailed("server down".to_string())),
        Err(DbError::Connectivity("server down".to_string()))
    );
    assert_eq!(m.get_handle(), Err(DbError::NotInitialized));
    assert_eq!(m.init_client(InitEvent::PingOk(3)), Ok(()));
    assert_eq!(m.get_handle().unwrap(), &3);
}

#[test]
fn get_handle_before_init_is_an_error() {
    let m: ConnectionManager<String> = ConnectionManager::new();
    assert_eq!(m.get_handle(), Err(DbError::NotInitialized));
}

#[test]
fn is_alive_only_ever_returns_a_boolean() {
    let mut m: ConnectionManager<u32> = ConnectionManager::new();
    m.init_client(InitEvent::PingOk(1)).unwrap();
    assert!(m.is_mongod_service_running(PingOutcome::Reachable));
    assert!(!m.is_mongod_service_running(PingOutcome::Unreachable(
        "connection reset".to_string()
    )));
    assert!(m.is_mongod_service_running(PingOutcome::Reachable));
}
