use ruccs::error::Error;
use ruccs::protocol::Command;
use ruccs::server::{Client, ClientState, Route};
use uuid::Uuid;

#[test]
fn new_client_is_ready_and_detached() {
    let c = Client::new("ws".to_string());
    assert_eq!(c.name, "ws");
    assert_eq!(c.state, ClientState::Ready);
    assert!(c.device_id.is_none());
}

#[test]
fn server_commands_are_answered_by_the_server() {
    let mut c = Client::new("ws".to_string());
    assert!(matches!(c.route(&Command::DeviceList), Route::DeviceList));
    assert_eq!(c.state, ClientState::Busy);
    assert!(matches!(c.route(&Command::Attach("dev".to_string())), Route::Attach(n) if n == "dev"));
    assert!(matches!(c.route(&Command::Name("me".to_string())), Route::Name(n) if n == "me"));
    assert!(matches!(c.route(&Command::Info), Route::Ignore));
}

#[test]
fn attached_client_sends_to_its_device() {
    let mut c = Client::new("ws".to_string());
    let id = Uuid::from_u128(7);
    assert_eq!(c.attach(Some(id)), Ok(()));
    assert_eq!(c.device_id, Some(id));
    assert!(matches!(c.route(&Command::Info), Route::Device(d) if d == id));
    assert!(matches!(c.route(&Command::DeviceList), Route::DeviceList));
}

#[test]
fn attaching_to_an_unknown_name_fails() {
    let mut c = Client::new("ws".to_string());
    let id = Uuid::from_u128(3);
    c.attach(Some(id)).unwrap();
    assert_eq!(c.attach(None), Err(Error::InvalidDeviceName));
    assert_eq!(c.device_id, Some(id));
}

#[test]
fn rename_keeps_the_rest() {
    let mut c = Client::new("ws".to_string());
    c.rename("other".to_string());
    assert_eq!(c.name, "other");
    assert_eq!(c.state, ClientState::Ready);
}

#[test]
fn binary_data_counts_down() {
    let mut c = Client::new("ws".to_string());
    c.finish(Some(10));
    assert_eq!(c.state, ClientState::SendingData(10));
    assert!(c.on_binary(4));
    assert_eq!(c.state, ClientState::SendingData(6));
    assert!(c.on_binary(6));
    assert_eq!(c.state, ClientState::Ready);
    assert!(!c.on_binary(3));
    assert_eq!(c.state, ClientState::Ready);
    c.finish(None);
    assert_eq!(c.state, ClientState::Ready);
}

#[test]
fn binary_data_in_any_cut_ends_ready() {
    for cut in [vec![100usize], vec![1, 99], vec![50, 0, 50], vec![33, 33, 34]] {
        let mut c = Client::new("ws".to_string());
        c.finish(Some(100));
        let mut sent = 0;
        for n in cut {
            assert!(c.on_binary(n));
            sent += n;
            if sent < 100 {
                assert_eq!(c.state, ClientState::SendingData(100 - sent));
            }
        }
        assert_eq!(c.state, ClientState::Ready);
    }
}
