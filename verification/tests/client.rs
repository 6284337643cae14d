use tokio_electrum::chain::Header;
use tokio_electrum::electrum::address::ElectrumServerAddress;
use tokio_electrum::electrum::builder::{ElectrumConnectionMode, SocketAddr};
use tokio_electrum::electrum::client::{
    ConnectOutcome, ElectrumClient, SendOutcome, SenderEvent, SenderNext, ServerEvent, TaskNext,
    WaitOutcome,
};
use tokio_electrum::electrum::config::ElectrumConfig;
use tokio_electrum::electrum::error::{BatchRequestError, Error};
use tokio_electrum::electrum::network::Network;
use tokio_electrum::electrum::notification::ElectrumNotification;
use tokio_electrum::electrum::reconnect::next_reconnect_interval;
use tokio_electrum::electrum::request::{
    collect_fees, collect_responses, map_responses, Request,
};
use tokio_electrum::electrum::status::{
    ElectrumConnectionStatus, InternalElectrumConnectionStatus,
};
use tokio_electrum::hash::Hash256;
use tokio_electrum::ip::IpAddr;
use tokio_electrum::time::Duration;
use tokio_electrum::tx::Transaction;

fn address() -> ElectrumServerAddress {
    ElectrumServerAddress::parse("tcp://127.0.0.1:50001").unwrap()
}

fn test_client() -> ElectrumClient {
    ElectrumClient::new(address())
}

fn hash(byte: u8) -> Hash256 {
    Hash256::from_byte_array([byte; 32])
}

fn header(time: u32) -> Header {
    Header {
        version: 1,
        prev_blockhash: hash(1),
        merkle_root: hash(2),
        time,
        bits: 3,
        nonce: 4,
    }
}

fn genesis_hash(network: bitcoin::Network) -> Hash256 {
    let block = bitcoin::constants::genesis_block(network);
    Hash256::from_byte_array(bitcoin::hashes::Hash::to_byte_array(block.block_hash()))
}

fn changed(status: ElectrumConnectionStatus) -> ElectrumNotification {
    ElectrumNotification::ConnectionStatusChanged(status)
}

#[test]
fn test_builder_wires_runtime_tuning() {
    let client = ElectrumClient::builder(address())
        .request_timeout(Duration::from_secs(55))
        .ping_timeout(Duration::from_secs(9))
        .reconnect_delay_initial(Duration::from_secs(1))
        .reconnect_delay_max(Duration::from_secs(8))
        .max_consecutive_ping_timeouts(0)
        .command_channel_size(2048)
        .build();

    assert_eq!(client.config.request_timeout, Duration::from_secs(55));
    assert_eq!(client.config.ping_timeout, Duration::from_secs(9));
    assert_eq!(client.config.reconnect_delay_initial, Duration::from_secs(1));
    assert_eq!(client.config.reconnect_delay_max, Duration::from_secs(8));
    // Must clamp to at least 1.
    assert_eq!(client.config.max_consecutive_ping_timeouts, 1);
    assert_eq!(client.command_channel_size, 2048);
}

#[test]
fn builder_defaults_and_settings() {
    let client = test_client();
    assert_eq!(client.addr, address());
    assert_eq!(client.config.connection_mode, ElectrumConnectionMode::Direct);
    assert_eq!(client.config.connection_timeout, Duration::from_secs(60));
    assert_eq!(client.config.request_timeout, Duration::from_secs(60));
    assert_eq!(client.config.ping_timeout, Duration::from_secs(15));
    assert_eq!(client.config.reconnect_delay_initial, Duration::from_secs(2));
    assert_eq!(client.config.reconnect_delay_max, Duration::from_secs(30));
    assert_eq!(client.config.max_consecutive_ping_timeouts, 3);
    assert_eq!(client.config.expected_network, None);
    assert_eq!(client.command_channel_size, 4096);
    assert_eq!(client.notification_channel_size, 4096);
    assert_eq!(
        client.internal_status(),
        InternalElectrumConnectionStatus::Initialized
    );
    assert!(!client.is_running());

    let proxy = ElectrumConnectionMode::Proxy(SocketAddr {
        ip: IpAddr::V4([127, 0, 0, 1]),
        port: 9050,
    });
    let client = ElectrumClient::builder(address())
        .connection_mode(proxy)
        .connection_timeout(Duration::from_secs(5))
        .notification_channel_size(16)
        .max_consecutive_ping_timeouts(7)
        .expected_network(Network::Signet)
        .build();
    assert_eq!(client.config.connection_mode, proxy);
    assert_eq!(client.config.connection_timeout, Duration::from_secs(5));
    assert_eq!(client.notification_channel_size, 16);
    assert_eq!(client.config.max_consecutive_ping_timeouts, 7);
    assert_eq!(client.config.expected_network, Some(Network::Signet));
}

#[test]
fn config_defaults_and_settings() {
    let config = ElectrumConfig::new();
    assert_eq!(config, ElectrumConfig::default());
    assert_eq!(config.connection_timeout, Duration::from_secs(60));
    assert_eq!(config.notification_channel_size, 4096);
    let config = config
        .connection_timeout(Duration::from_millis(1500))
        .notification_channel_size(8);
    assert_eq!(config.connection_timeout, Duration::from_millis(1500));
    assert_eq!(config.notification_channel_size, 8);
}

#[test]
fn test_next_reconnect_interval_bounds_and_growth() {
    assert_eq!(
        next_reconnect_interval(0, Duration::from_secs(2), Duration::from_secs(30)),
        Duration::from_secs(2)
    );

    assert_eq!(
        next_reconnect_interval(1, Duration::from_secs(2), Duration::from_secs(30)),
        Duration::from_secs(4).saturating_add(Duration::from_millis(73))
    );

    // Capped at max.
    assert_eq!(
        next_reconnect_interval(20, Duration::from_secs(2), Duration::from_secs(30)),
        Duration::from_secs(30)
    );

    // Zero initial is sanitized.
    assert_eq!(
        next_reconnect_interval(0, Duration::zero(), Duration::from_secs(1)),
        Duration::from_millis(250)
    );
}

#[test]
fn durations_are_measured_in_nanoseconds() {
    let d = Duration::new(1, 999_999_999).unwrap();
    assert_eq!(d.as_secs(), 1);
    assert_eq!(d.subsec_nanos(), 999_999_999);
    assert_eq!(Duration::new(1, 1_000_000_000), Duration::new(2, 0));
    assert_eq!(Duration::new(u64::MAX, 1_000_000_000), None);
    assert!(Duration::zero().is_zero());
    assert!(Duration::from_millis(999).is_shorter(&Duration::from_secs(1)));
    assert_eq!(
        Duration::from_millis(1500).checked_mul(3),
        Some(Duration::from_millis(4500))
    );
    assert_eq!(Duration::from_secs(u64::MAX).checked_mul(2), None);
    let longest = Duration::from_secs(u64::MAX).saturating_add(Duration::from_secs(u64::MAX));
    assert_eq!(longest, Duration::new(u64::MAX, 999_999_999).unwrap());
}

#[test]
fn async_send_batch_returns_command_queue_saturated_when_queue_is_full() {
    let client = ElectrumClient::builder(address())
        .request_timeout(Duration::from_millis(50))
        .command_channel_size(1)
        .build();

    // The first request is handed over.
    assert_eq!(client.block_headers_subscribe(), Ok(Request::HeadersSubscribe));
    assert_eq!(ElectrumClient::finish_send(SendOutcome::Sent), Ok(()));

    // For the second one there is no room before the timeout.
    assert_eq!(client.server_features(), Ok(Request::ServerFeatures));
    let err = ElectrumClient::finish_send(SendOutcome::TimedOut)
        .expect_err("must fail with local backpressure");
    assert!(matches!(err, Error::CommandQueueSaturated));
    assert_eq!(
        ElectrumClient::finish_send(SendOutcome::Closed(String::from("closed"))),
        Err(Error::MpscTrySend(String::from("closed")))
    );
}

#[test]
fn test_wait_batch_response_timeout() {
    let result = ElectrumClient::wait_batch_response::<u8>(WaitOutcome::TimedOut);
    assert!(matches!(result, Err(Error::Timeout)));
    assert_eq!(
        ElectrumClient::wait_batch_response(WaitOutcome::Response(42_u8)),
        Ok(42)
    );
}

#[test]
fn test_wait_batch_response_disconnected() {
    let result = ElectrumClient::wait_batch_response::<()>(WaitOutcome::Disconnected);
    assert!(matches!(result, Err(Error::Disconnected)));
}

#[test]
fn request_timeout_without_connection() {
    let client = ElectrumClient::builder(address())
        .request_timeout(Duration::from_millis(50))
        .build();
    assert_eq!(client.server_features(), Ok(Request::ServerFeatures));
    let err = ElectrumClient::wait_batch_response::<u8>(WaitOutcome::TimedOut)
        .expect_err("must timeout");
    assert!(matches!(err, Error::Timeout));
}

#[test]
fn test_connect_and_disconnect_guards() {
    let mut client = test_client();
    assert!(client.disconnect());
    assert!(client.internal_status().is_terminated());

    // No-op when already terminated.
    assert!(!client.disconnect());
    assert!(client.internal_status().is_terminated());
    assert_eq!(
        client.take_notifications(),
        vec![
            changed(ElectrumConnectionStatus::Disconnected),
            ElectrumNotification::Shutdown
        ]
    );

    // No-op when status cannot connect.
    client.set_status(InternalElectrumConnectionStatus::Pending);
    assert!(!client.connect());
    assert_eq!(
        client.internal_status(),
        InternalElectrumConnectionStatus::Pending
    );
}

#[test]
fn disconnect_emits_shutdown_notification() {
    let mut client = test_client();
    assert!(client.connect());
    assert!(client.begin_connection_task());
    client.begin_connect();
    assert_eq!(client.try_connect(ConnectOutcome::Connected), Ok(()));
    client.disconnect();
    let notifications = client.take_notifications();
    let got_shutdown = notifications.contains(&ElectrumNotification::Shutdown);
    assert!(
        got_shutdown,
        "expected shutdown notification after disconnect"
    );
    assert_eq!(client.take_notifications(), vec![]);
}

#[test]
fn test_spawn_connection_task_returns_if_running() {
    let mut client = test_client();
    assert!(client.spawn_connection_task());
    client.running = true;
    assert!(!client.spawn_connection_task());
    assert!(!client.begin_connection_task());
    assert!(client.running);
}

#[test]
fn test_send_batch_returns_network_mismatch() {
    let mut client = test_client();
    client.network_mismatch = true;

    let err = client.block_headers_subscribe().expect_err("must fail");
    assert!(matches!(err, Error::NetworkMismatch));
}

#[test]
fn test_shutdown_on_drop() {
    let mut client = test_client();
    assert!(client.connect());
    assert!(client.begin_connection_task());
    assert!(client.is_running());

    // A client that is dropped disconnects, and its task ends.
    assert!(client.disconnect());
    let mut attempt: u32 = 0;
    assert_eq!(client.connection_task(&mut attempt), TaskNext::Stop);
    client.end_connection_task();

    assert_eq!(
        client.internal_status(),
        InternalElectrumConnectionStatus::Terminated
    );
    assert!(!client.is_running());
}

#[test]
fn connections_are_made_and_lost() {
    let mut client = test_client();
    assert_eq!(client.status(), ElectrumConnectionStatus::Disconnected);
    assert!(client.connect());
    assert_eq!(client.status(), ElectrumConnectionStatus::Connecting);
    assert!(client.begin_connection_task());
    let mut attempt: u32 = 0;

    client.begin_connect();
    let failed = client.try_connect(ConnectOutcome::Failed(Error::Timeout));
    assert_eq!(failed, Err(Error::Timeout));
    assert_eq!(
        client.connection_task(&mut attempt),
        TaskNext::Sleep(Duration::from_secs(2))
    );
    assert_eq!(attempt, 1);

    client.begin_connect();
    assert_eq!(client.try_connect(ConnectOutcome::Connected), Ok(()));
    assert_eq!(client.status(), ElectrumConnectionStatus::Connected);
    assert_eq!(
        client.connection_task(&mut attempt),
        TaskNext::Sleep(Duration::from_millis(4073))
    );
    assert_eq!(client.status(), ElectrumConnectionStatus::Disconnected);
    assert_eq!(
        client.take_notifications(),
        vec![
            changed(ElectrumConnectionStatus::Connecting),
            changed(ElectrumConnectionStatus::Connecting),
            changed(ElectrumConnectionStatus::Disconnected),
            changed(ElectrumConnectionStatus::Connecting),
            changed(ElectrumConnectionStatus::Connected),
            changed(ElectrumConnectionStatus::Disconnected),
        ]
    );

    client.disconnect();
    let stopped = client.try_connect(ConnectOutcome::Terminated);
    assert_eq!(stopped, Err(Error::TerminationRequest));
    assert_eq!(client.connection_task(&mut attempt), TaskNext::Stop);
}

#[test]
fn the_network_is_checked_against_the_genesis_block() {
    let mut client = test_client();
    assert!(!client.needs_network_validation());
    assert_eq!(client.validate_network(Ok(hash(9))), Ok(()));

    for (network, ours) in [
        (bitcoin::Network::Bitcoin, Network::Bitcoin),
        (bitcoin::Network::Testnet, Network::Testnet),
        (bitcoin::Network::Testnet4, Network::Testnet4),
        (bitcoin::Network::Signet, Network::Signet),
        (bitcoin::Network::Regtest, Network::Regtest),
    ] {
        let mut client = ElectrumClient::builder(address()).expected_network(ours).build();
        assert!(client.needs_network_validation());
        assert_eq!(client.validate_network(Ok(genesis_hash(network))), Ok(()));
        assert!(!client.network_mismatch);
        assert_eq!(
            client.validate_network(Err(Error::Timeout)),
            Err(Error::Timeout)
        );
        assert!(!client.network_mismatch);
        let other = if ours == Network::Regtest {
            bitcoin::Network::Bitcoin
        } else {
            bitcoin::Network::Regtest
        };
        assert_eq!(
            client.validate_network(Ok(genesis_hash(other))),
            Err(Error::NetworkMismatch)
        );
        assert!(client.network_mismatch);
        assert_eq!(client.server_features(), Err(Error::NetworkMismatch));
    }
}

#[test]
fn ping_timeouts_in_a_row_end_the_sender() {
    let client = test_client();
    let mut count: u8 = 0;
    let timeout = || SenderEvent::Ping(Err(Error::Timeout));
    assert_eq!(client.sender_message_handler(&mut count, timeout()), SenderNext::Continue);
    assert_eq!(client.sender_message_handler(&mut count, timeout()), SenderNext::Continue);
    assert_eq!(
        client.sender_message_handler(&mut count, SenderEvent::Ping(Ok(()))),
        SenderNext::Continue
    );
    assert_eq!(count, 0);
    for _ in 0..2 {
        assert_eq!(client.sender_message_handler(&mut count, timeout()), SenderNext::Continue);
        let sent = SenderEvent::Batch(Ok(()));
        assert_eq!(client.sender_message_handler(&mut count, sent), SenderNext::Continue);
    }
    assert_eq!(
        client.sender_message_handler(&mut count, timeout()),
        SenderNext::Exit(Err(Error::Timeout))
    );
    assert_eq!(count, 3);
    let lost = SenderEvent::Ping(Err(Error::Disconnected));
    assert_eq!(
        client.sender_message_handler(&mut count, lost),
        SenderNext::Exit(Err(Error::Disconnected))
    );
    let failed = SenderEvent::Batch(Err(Error::Io(String::from("broken pipe"))));
    assert_eq!(
        client.sender_message_handler(&mut count, failed),
        SenderNext::Exit(Err(Error::Io(String::from("broken pipe"))))
    );
    assert_eq!(
        client.sender_message_handler(&mut count, SenderEvent::Closed),
        SenderNext::Exit(Ok(()))
    );
}

#[test]
fn what_comes_from_the_server_is_notified() {
    let mut client = test_client();
    client.receiver_message_handler(ServerEvent::HeadersSubscribed { height: 7, header: header(1) });
    client.receiver_message_handler(ServerEvent::OtherResponse);
    client.receiver_message_handler(ServerEvent::ResponseError);
    client.receiver_message_handler(ServerEvent::ScriptHashSubscribed { hash: hash(5), status: None });
    client.receiver_message_handler(ServerEvent::Unknown);
    client.receiver_message_handler(ServerEvent::ScriptHash { hash: hash(5), status: Some(hash(6)) });
    client.receiver_message_handler(ServerEvent::Header { height: 8, header: header(2) });
    assert_eq!(
        client.take_notifications(),
        vec![
            ElectrumNotification::BlockHeader { height: 7, header: header(1) },
            ElectrumNotification::ScriptHash { hash: hash(5), status: None },
            ElectrumNotification::ScriptHash { hash: hash(5), status: Some(hash(6)) },
            ElectrumNotification::BlockHeader { height: 8, header: header(2) },
        ]
    );
}

#[test]
fn each_call_makes_its_request() {
    let client = test_client();
    assert_eq!(client.block_header(9), Ok(Request::BlockHeader { height: 9 }));
    assert_eq!(
        client.block_headers(3, 8),
        Ok(Request::BlockHeaders { start_height: 3, count: 8 })
    );
    assert_eq!(client.get_tip(), Ok(Request::HeadersSubscribe));
    assert_eq!(
        client.script_hash_subscribe(hash(1)),
        Ok(Request::ScriptHashSubscribe { script_hash: hash(1) })
    );
    assert_eq!(
        client.script_hash_unsubscribe(hash(1)),
        Ok(Request::ScriptHashUnsubscribe { script_hash: hash(1) })
    );
    assert_eq!(
        client.script_get_history(hash(2)),
        Ok(Request::GetHistory { script_hash: hash(2) })
    );
    assert_eq!(client.transaction_get(hash(3)), Ok(Request::GetTx { txid: hash(3) }));
    assert_eq!(
        client.transaction_get_merkle(hash(3), 11),
        Ok(Request::GetTxMerkle { txid: hash(3), height: 11 })
    );
    assert_eq!(client.estimate_fee(6), Ok(Request::EstimateFee { number: 6 }));
    let tx = || Transaction { version: 2, lock_time: 0, input: vec![], output: vec![] };
    assert_eq!(client.broadcast_tx(tx()), Ok(Request::BroadcastTx(tx())));
}

#[test]
fn batches_make_one_request_each() {
    let mut client = test_client();
    assert_eq!(
        client.batch_script_hash_subscribe(&vec![hash(1), hash(2)]),
        Ok(vec![
            Request::ScriptHashSubscribe { script_hash: hash(1) },
            Request::ScriptHashSubscribe { script_hash: hash(2) },
        ])
    );
    assert_eq!(
        client.batch_script_hash_unsubscribe(&vec![hash(1)]),
        Ok(vec![Request::ScriptHashUnsubscribe { script_hash: hash(1) }])
    );
    assert_eq!(
        client.batch_script_get_history(&vec![hash(4), hash(4)]),
        Ok(vec![
            Request::GetHistory { script_hash: hash(4) },
            Request::GetHistory { script_hash: hash(4) },
        ])
    );
    assert_eq!(
        client.batch_transaction_get(&vec![hash(5)]),
        Ok(vec![Request::GetTx { txid: hash(5) }])
    );
    assert_eq!(
        client.batch_transaction_get_merkle(&vec![(hash(5), 7), (hash(6), 8)]),
        Ok(vec![
            Request::GetTxMerkle { txid: hash(5), height: 7 },
            Request::GetTxMerkle { txid: hash(6), height: 8 },
        ])
    );
    assert_eq!(
        client.batch_estimate_fee(&vec![1, 2]),
        Ok(vec![Request::EstimateFee { number: 1 }, Request::EstimateFee { number: 2 }])
    );

    // An empty batch needs no server.
    client.network_mismatch = true;
    assert_eq!(client.batch_transaction_get(&vec![]), Ok(vec![]));
    assert_eq!(client.batch_transaction_get(&vec![hash(5)]), Err(Error::NetworkMismatch));
}

#[test]
fn responses_are_collected() {
    let refused = || BatchRequestError::Response(String::from("no such tx"));
    assert_eq!(collect_responses::<u8>(vec![Ok(1), Ok(2)]), Ok(vec![1, 2]));
    assert_eq!(
        collect_responses::<u8>(vec![Ok(1), Err(refused()), Err(BatchRequestError::Canceled)]),
        Err(Error::BatchRequest(refused()))
    );
    assert_eq!(
        map_responses::<u8>(vec![Ok(1), Err(BatchRequestError::Canceled), Ok(3)]),
        vec![Ok(1), Err(Error::BatchRequest(BatchRequestError::Canceled)), Ok(3)]
    );
    let fees = collect_fees(
        &vec![Ok(Some(250)), Ok(None), Err(BatchRequestError::Canceled), Ok(Some(500)), Ok(Some(750))],
        &vec![6, 2, 3, 1, 6],
    );
    assert_eq!(fees.len(), 2);
    assert_eq!(fees.get(&1), Some(&500));
    assert_eq!(fees.get(&6), Some(&750));
    assert_eq!(fees.get(&2), None);
}

#[test]
fn errors_say_what_went_wrong() {
    let canceled = || Error::BatchRequest(BatchRequestError::Canceled);
    assert!(Error::Disconnected.is_disconnected_like());
    assert!(canceled().is_disconnected_like());
    assert!(!Error::Timeout.is_disconnected_like());
    let refused = Error::BatchRequest(BatchRequestError::Response(String::from("x")));
    assert!(!refused.is_disconnected_like());
    assert_eq!(refused.message(), "Request satisfied with error: x");
    assert_eq!(canceled().message(), "Request was canceled before being satisfied.");
    assert_eq!(
        Error::NetworkMismatch.message(),
        "the server network does not match the expected network"
    );
    assert_eq!(
        Error::CommandQueueSaturated.message(),
        "the local electrum command queue is saturated"
    );
    assert_eq!(Error::Timeout.message(), "timeout");
    assert_eq!(Error::Disconnected.message(), "disconnected");
    assert_eq!(Error::TerminationRequest.message(), "termination request");
    for text in ["one", "two"] {
        let text = String::from(text);
        for e in [
            Error::Io(text.clone()),
            Error::InvalidDnsName(text.clone()),
            Error::AsyncRequestSend(text.clone()),
            Error::AsyncRequest(text.clone()),
            Error::Response(text.clone()),
            Error::Socks(text.clone()),
            Error::MpscTrySend(text.clone()),
        ] {
            assert_eq!(e.message(), text);
        }
    }
}

#[test]
fn a_network_mismatch_is_permanent() {
    let addr = ElectrumServerAddress::parse("tcp://127.0.0.1:50001").unwrap();
    let builder = ElectrumClient::builder(addr).expected_network(Network::Regtest);
    let mut client = builder.build();
    assert!(client.batch_block_header(&vec![3, 4]).is_ok());
    let other = Ok(Hash256::from_byte_array([1; 32]));
    assert_eq!(client.validate_network(other), Err(Error::NetworkMismatch));

    client.disconnect();
    client.connect();
    client.begin_connect();
    assert_eq!(client.block_header(3).unwrap_err(), Error::NetworkMismatch);
    assert_eq!(client.batch_block_header(&vec![3, 4]).unwrap_err(), Error::NetworkMismatch);
    assert_eq!(client.batch_block_header(&vec![]).unwrap(), vec![]);
}

#[test]
fn headers_are_requested_one_for_each_height() {
    let client = test_client();
    assert_eq!(
        client.batch_block_header(&vec![9, 4]).unwrap(),
        vec![Request::BlockHeader { height: 9 }, Request::BlockHeader { height: 4 }]
    );
}
