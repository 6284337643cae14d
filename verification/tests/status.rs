use tokio_electrum::electrum::status::{
    AtomicElectrumConnectionStatus, ElectrumConnectionStatus, InternalElectrumConnectionStatus,
};

#[test]
fn test_status_set() {
    let mut relay = AtomicElectrumConnectionStatus::default();
    relay.set(InternalElectrumConnectionStatus::Connected);
    assert_eq!(relay.load(), InternalElectrumConnectionStatus::Connected);
}

#[test]
fn test_status_initialized() {
    let status = InternalElectrumConnectionStatus::Initialized;
    assert!(!status.is_disconnected_terminated_or_shutdown());
    assert!(!status.is_terminated());
    assert!(status.can_connect());
    let relay = AtomicElectrumConnectionStatus::new(status);
    assert_eq!(relay.load(), InternalElectrumConnectionStatus::Initialized);
}

#[test]
fn test_status_pending() {
    let status = InternalElectrumConnectionStatus::Pending;
    assert!(!status.is_disconnected_terminated_or_shutdown());
    assert!(!status.is_terminated());
    assert!(!status.can_connect());
    let relay = AtomicElectrumConnectionStatus::new(status);
    assert_eq!(relay.load(), InternalElectrumConnectionStatus::Pending);
}

#[test]
fn test_status_connecting() {
    let status = InternalElectrumConnectionStatus::Connecting;
    assert!(!status.is_disconnected_terminated_or_shutdown());
    assert!(!status.is_terminated());
    assert!(!status.can_connect());
    let relay = AtomicElectrumConnectionStatus::new(status);
    assert_eq!(relay.load(), InternalElectrumConnectionStatus::Connecting);
}

#[test]
fn test_status_connected() {
    let status = InternalElectrumConnectionStatus::Connected;
    assert!(!status.is_disconnected_terminated_or_shutdown());
    assert!(!status.is_terminated());
    assert!(!status.can_connect());
    let relay = AtomicElectrumConnectionStatus::new(status);
    assert_eq!(relay.load(), InternalElectrumConnectionStatus::Connected);
}

#[test]
fn test_status_disconnected() {
    let status = InternalElectrumConnectionStatus::Disconnected;
    assert!(status.is_disconnected_terminated_or_shutdown());
    assert!(!status.is_terminated());
    assert!(!status.can_connect());
    let relay = AtomicElectrumConnectionStatus::new(status);
    assert_eq!(relay.load(), InternalElectrumConnectionStatus::Disconnected);
}

#[test]
fn test_status_terminated() {
    let status = InternalElectrumConnectionStatus::Terminated;
    assert!(status.is_disconnected_terminated_or_shutdown());
    assert!(status.is_terminated());
    assert!(status.can_connect());
    let relay = AtomicElectrumConnectionStatus::new(status);
    assert_eq!(relay.load(), InternalElectrumConnectionStatus::Terminated);
}

#[test]
fn status_shutdown() {
    let status = InternalElectrumConnectionStatus::Shutdown;
    assert!(status.is_disconnected_terminated_or_shutdown());
    assert!(!status.is_terminated());
    assert!(status.is_shutdown());
    assert!(!status.can_connect());
}

#[test]
fn status_numbers_are_unique() {
    let all = [
        InternalElectrumConnectionStatus::Initialized,
        InternalElectrumConnectionStatus::Pending,
        InternalElectrumConnectionStatus::Connecting,
        InternalElectrumConnectionStatus::Connected,
        InternalElectrumConnectionStatus::Disconnected,
        InternalElectrumConnectionStatus::Terminated,
        InternalElectrumConnectionStatus::Shutdown,
    ];
    for (i, status) in all.iter().enumerate() {
        assert_eq!(status.number(), i as u8);
        assert_eq!(
            InternalElectrumConnectionStatus::from_number(i as u8),
            Some(*status)
        );
    }
    assert_eq!(InternalElectrumConnectionStatus::from_number(7), None);
}

#[test]
fn shown_statuses() {
    let shown = |status| ElectrumConnectionStatus::from(status);
    assert_eq!(
        shown(InternalElectrumConnectionStatus::Initialized),
        ElectrumConnectionStatus::Disconnected
    );
    assert_eq!(
        shown(InternalElectrumConnectionStatus::Pending),
        ElectrumConnectionStatus::Connecting
    );
    assert_eq!(
        shown(InternalElectrumConnectionStatus::Connecting),
        ElectrumConnectionStatus::Connecting
    );
    assert_eq!(
        shown(InternalElectrumConnectionStatus::Connected),
        ElectrumConnectionStatus::Connected
    );
    assert_eq!(
        shown(InternalElectrumConnectionStatus::Shutdown),
        ElectrumConnectionStatus::Disconnected
    );
    assert!(ElectrumConnectionStatus::Connecting.is_connecting());
    assert!(!ElectrumConnectionStatus::Connecting.is_connected());
    assert!(ElectrumConnectionStatus::Connected.is_connected());
    assert!(!ElectrumConnectionStatus::Connected.is_disconnected());
    assert!(ElectrumConnectionStatus::Disconnected.is_disconnected());
    assert_eq!(ElectrumConnectionStatus::Connecting.name(), "Connecting");
    assert_eq!(ElectrumConnectionStatus::Connected.name(), "Connected");
    assert_eq!(ElectrumConnectionStatus::Disconnected.name(), "Disconnected");
}
