//! The state of the Electrum client: its connection, and what it asks of the server.
use vstd::prelude::*;

use crate::chain::Header;
use crate::electrum::address::ElectrumServerAddress;
use crate::electrum::builder::{
    is_default_builder, ElectrumClientBuilder, ElectrumConnectionMode,
};
use crate::electrum::error::Error;
use crate::electrum::network::{chain_hash_of, network_number, Network};
use crate::electrum::notification::ElectrumNotification;
use crate::electrum::reconnect::{next_reconnect_interval, reconnect_interval};
use crate::electrum::status::{
    shown_status, AtomicElectrumConnectionStatus, ElectrumConnectionStatus,
    InternalElectrumConnectionStatus,
};
use crate::hash::{BlockHash, ElectrumScriptHash, ElectrumScriptStatus};
use crate::ordered::Value;
use crate::time::Duration;

verus! {

/// The settings of a client.
#[derive(Debug, Clone, Copy)]
pub struct Config {
    /// Connection mode
    pub connection_mode: ElectrumConnectionMode,
    /// Connection timeout
    pub connection_timeout: Duration,
    /// Request timeout
    pub request_timeout: Duration,
    /// Ping timeout
    pub ping_timeout: Duration,
    /// Initial reconnect delay
    pub reconnect_delay_initial: Duration,
    /// Maximum reconnect delay
    pub reconnect_delay_max: Duration,
    /// Max consecutive ping timeouts before forcing disconnect
    pub max_consecutive_ping_timeouts: u8,
    /// Expected Bitcoin network
    pub expected_network: Option<Network>,
}

/// Electrum client: the state that its tasks share.
#[derive(Debug)]
pub struct ElectrumClient {
    /// Electrum server address
    pub addr: ElectrumServerAddress,
    /// Connection status
    pub status: AtomicElectrumConnectionStatus,
    /// Whether the connection task is running
    pub running: bool,
    /// Whether the server turned out to be on another network
    pub network_mismatch: bool,
    /// Settings
    pub config: Config,
    /// Command channel size
    pub command_channel_size: usize,
    /// Notification channel size
    pub notification_channel_size: usize,
    /// Notifications that are to be sent out
    pub outbox: Vec<ElectrumNotification>,
}

/// The notification of a status.
pub open spec fn status_notification(
    status: InternalElectrumConnectionStatus,
) -> ElectrumNotification {
    ElectrumNotification::ConnectionStatusChanged(shown_status(status))
}

/// A client, as contracts speak of it: the status and what is to be sent out by their views.
pub struct ClientView {
    /// Connection status
    pub status: InternalElectrumConnectionStatus,
    /// Whether the connection task is running
    pub running: bool,
    /// Whether the server turned out to be on another network
    pub network_mismatch: bool,
    /// Settings
    pub config: Config,
    /// Notifications that are to be sent out
    pub outbox: Seq<ElectrumNotification>,
}

impl View for ElectrumClient {
    type V = ClientView;

    open spec fn view(&self) -> ClientView {
        ClientView {
            status: self.status@,
            running: self.running,
            network_mismatch: self.network_mismatch,
            config: self.config,
            outbox: self.outbox@,
        }
    }
}

/// A client with another status, which is notified.
pub open spec fn with_status(
    client: ClientView,
    status: InternalElectrumConnectionStatus,
) -> ClientView {
    ClientView { status, outbox: client.outbox.push(status_notification(status)), ..client }
}

/// Whether a client may be told to connect: before it was, and after it was told to disconnect.
pub open spec fn may_connect(client: ClientView) -> bool {
    client.status == InternalElectrumConnectionStatus::Initialized || client.status
        == InternalElectrumConnectionStatus::Terminated
}

/// A client that was told to connect.
pub open spec fn connecting(client: ClientView) -> ClientView {
    if may_connect(client) {
        with_status(client, InternalElectrumConnectionStatus::Pending)
    } else {
        client
    }
}

/// A client that was told to disconnect: it is terminated, and the shutdown is notified last.
pub open spec fn disconnected(client: ClientView) -> ClientView {
    if client.status == InternalElectrumConnectionStatus::Terminated {
        client
    } else {
        let terminated = with_status(client, InternalElectrumConnectionStatus::Terminated);
        ClientView {
            outbox: terminated.outbox.push(ElectrumNotification::Shutdown),
            ..terminated
        }
    }
}

/// To disconnect twice is to disconnect once, and a client that was told to disconnect is terminated
/// and may be told to connect again.
pub proof fn disconnect_is_idempotent(client: ClientView)
    ensures
        disconnected(disconnected(client)) == disconnected(client),
        disconnected(client).status == InternalElectrumConnectionStatus::Terminated,
        may_connect(disconnected(client)),
{
}

/// To connect twice is to connect once: the second time nothing changes until the client is told to
/// disconnect.
pub proof fn connect_is_idempotent(client: ClientView)
    ensures
        connecting(connecting(client)) == connecting(client),
        !may_connect(connecting(client)),
{
}

/// Once the server turned out to be on another network that is so for good: neither another status, nor
/// to connect or to disconnect changes it.
pub proof fn network_mismatch_is_permanent(
    client: ClientView,
    status: InternalElectrumConnectionStatus,
)
    requires
        client.network_mismatch,
    ensures
        with_status(client, status).network_mismatch,
        connecting(client).network_mismatch,
        disconnected(client).network_mismatch,
{
}

/// Whether a genesis block is that of a network other than the expected one.
pub open spec fn is_of_other_network(
    expected: Option<Network>,
    genesis_hash: Result<BlockHash, Error>,
) -> bool {
    expected is Some && exists|other: Network|
        other != expected->0 && genesis_hash == Ok::<BlockHash, Error>(
            #[trigger] chain_hash_of(other),
        )
}

/// How the attempt to connect ended.
pub enum ConnectOutcome {
    /// There is a connection.
    Connected,
    /// It failed.
    Failed(Error),
    /// The client was told to disconnect meanwhile.
    Terminated,
}

/// What the connection task does after a connection has ended.
#[derive(Debug, Clone, Copy, PartialEq, Eq)]
pub enum TaskNext {
    /// It ends.
    Stop,
    /// It waits for a while, and connects again.
    Sleep(Duration),
}

/// What the sender waits for has happened.
pub enum SenderEvent {
    /// A ping was sent, and answered or not.
    Ping(Result<(), Error>),
    /// A batch of requests was handed on, or could not be.
    Batch(Result<(), Error>),
    /// There will be no more requests.
    Closed,
}

/// How the sender goes on.
#[derive(Debug, PartialEq, Eq)]
pub enum SenderNext {
    /// It waits for the next thing.
    Continue,
    /// It ends.
    Exit(Result<(), Error>),
}

/// What comes from the server.
#[derive(Debug, Clone, Copy, PartialEq, Eq)]
pub enum ServerEvent {
    /// The subscription to headers was confirmed, with the tip.
    HeadersSubscribed {
        /// Height of the tip.
        height: u32,
        /// Header of the tip.
        header: Header,
    },
    /// The subscription to a script was confirmed, with its status.
    ScriptHashSubscribed {
        /// The script.
        hash: ElectrumScriptHash,
        /// Its status.
        status: Option<ElectrumScriptStatus>,
    },
    /// Another response.
    OtherResponse,
    /// An error in response to a request.
    ResponseError,
    /// A new header.
    Header {
        /// Height of the block.
        height: u32,
        /// Header of the block.
        header: Header,
    },
    /// A new status of a script.
    ScriptHash {
        /// The script.
        hash: ElectrumScriptHash,
        /// Its status.
        status: Option<ElectrumScriptStatus>,
    },
    /// A notification that is not known.
    Unknown,
}

/// The notification that is sent out for what comes from the server.
pub open spec fn notification_of(event: ServerEvent) -> Option<ElectrumNotification> {
    match event {
        ServerEvent::HeadersSubscribed { height, header } => Some(
            ElectrumNotification::BlockHeader { height, header },
        ),
        ServerEvent::Header { height, header } => Some(
            ElectrumNotification::BlockHeader { height, header },
        ),
        ServerEvent::ScriptHashSubscribed { hash, status } => Some(
            ElectrumNotification::ScriptHash { hash, status },
        ),
        ServerEvent::ScriptHash { hash, status } => Some(
            ElectrumNotification::ScriptHash { hash, status },
        ),
        _ => None,
    }
}

/// How handing a batch of requests to the connection ended.
pub enum SendOutcome {
    /// It was handed over.
    Sent,
    /// There was no room for it in time.
    TimedOut,
    /// There is nobody to take it, and this is why.
    Closed(String),
}

/// How waiting for a response ended.
pub enum WaitOutcome<T> {
    /// It came.
    Response(T),
    /// It did not come in time.
    TimedOut,
    /// The connection was lost.
    Disconnected,
}

impl ElectrumClient {
    /// Whether this is a client that was just built.
    pub open spec fn is_built_from(&self, builder: ElectrumClientBuilder) -> bool {
        &&& self.addr == builder.addr
        &&& self.command_channel_size == builder.command_channel_size
        &&& self.notification_channel_size == builder.notification_channel_size
        &&& self@ == (ClientView {
            status: InternalElectrumConnectionStatus::Initialized,
            running: false,
            network_mismatch: false,
            config: Config {
                connection_mode: builder.connection_mode,
                connection_timeout: builder.connection_timeout,
                request_timeout: builder.request_timeout,
                ping_timeout: builder.ping_timeout,
                reconnect_delay_initial: builder.reconnect_delay_initial,
                reconnect_delay_max: builder.reconnect_delay_max,
                max_consecutive_ping_timeouts: if builder.max_consecutive_ping_timeouts < 1 {
                    1
                } else {
                    builder.max_consecutive_ping_timeouts
                },
                expected_network: builder.expected_network,
            },
            outbox: Seq::empty(),
        })
    }

    /// Whether only what the view shows has changed.
    pub open spec fn keeps_identity(&self, before: ElectrumClient) -> bool {
        &&& self.addr == before.addr
        &&& self.command_channel_size == before.command_channel_size
        &&& self.notification_channel_size == before.notification_channel_size
    }

    /// Construct a new electrum client
    pub fn new(addr: ElectrumServerAddress) -> (r: Self)
        ensures
            exists|builder: ElectrumClientBuilder| #[trigger]
                is_default_builder(builder, addr) && r.is_built_from(builder),
    {
        Self::builder(addr).build()
    }

    /// Construct a new electrum client builder
    pub fn builder(addr: ElectrumServerAddress) -> (r: ElectrumClientBuilder)
        ensures
            is_default_builder(r, addr),
    {
        ElectrumClientBuilder::new(addr)
    }

    /// A client with the given settings. At least one ping timeout is tolerated.
    pub fn from_builder(builder: ElectrumClientBuilder) -> (r: Self)
        ensures
            r.is_built_from(builder),
    {
        let max_consecutive_ping_timeouts: u8 = if builder.max_consecutive_ping_timeouts < 1 {
            1
        } else {
            builder.max_consecutive_ping_timeouts
        };
        ElectrumClient {
            addr: builder.addr,
            status: AtomicElectrumConnectionStatus::default(),
            running: false,
            network_mismatch: false,
            config: Config {
                connection_mode: builder.connection_mode,
                connection_timeout: builder.connection_timeout,
                request_timeout: builder.request_timeout,
                ping_timeout: builder.ping_timeout,
                reconnect_delay_initial: builder.reconnect_delay_initial,
                reconnect_delay_max: builder.reconnect_delay_max,
                max_consecutive_ping_timeouts,
                expected_network: builder.expected_network,
            },
            command_channel_size: builder.command_channel_size,
            notification_channel_size: builder.notification_channel_size,
            outbox: Vec::new(),
        }
    }

    /// Check if the connection task is running
    pub fn is_running(&self) -> (r: bool)
        ensures
            r == self@.running,
    {
        self.running
    }

    /// The status, as it is kept.
    pub fn internal_status(&self) -> (r: InternalElectrumConnectionStatus)
        ensures
            r == self@.status,
    {
        self.status.load()
    }

    /// Get the current connection status
    pub fn status(&self) -> (r: ElectrumConnectionStatus)
        ensures
            r == shown_status(self@.status),
    {
        ElectrumConnectionStatus::from(self.internal_status())
    }

    /// Puts a notification down to be sent out.
    pub fn send_notification(&mut self, notification: ElectrumNotification)
        ensures
            final(self).keeps_identity(*old(self)),
            final(self)@ == (ClientView {
                outbox: old(self)@.outbox.push(notification),
                ..old(self)@
            }),
    {
        self.outbox.push(notification);
    }

    /// The notifications that are to be sent out, in order; they are handed over.
    pub fn take_notifications(&mut self) -> (r: Vec<ElectrumNotification>)
        ensures
            r@ == old(self)@.outbox,
            final(self).keeps_identity(*old(self)),
            final(self)@ == (ClientView { outbox: Seq::empty(), ..old(self)@ }),
    {
        let mut r: Vec<ElectrumNotification> = Vec::new();
        std::mem::swap(&mut r, &mut self.outbox);
        r
    }

    /// Changes the status, and notifies it.
    pub fn set_status(&mut self, status: InternalElectrumConnectionStatus)
        ensures
            final(self).keeps_identity(*old(self)),
            final(self)@ == with_status(old(self)@, status),
    {
        self.status.set(status);
        self.send_notification(
            ElectrumNotification::ConnectionStatusChanged(ElectrumConnectionStatus::from(status)),
        );
    }

    /// Whether the server has to be asked for its network.
    pub fn needs_network_validation(&self) -> (r: bool)
        ensures
            r == self@.config.expected_network is Some,
    {
        self.config.expected_network.is_some()
    }

    /// Holds the network of the server, which answered with the hash of its genesis block, against the
    /// expected one. If it is another network the client is terminated.
    pub fn validate_network(&mut self, genesis_hash: Result<BlockHash, Error>) -> (r: Result<
        (),
        Error,
    >)
        ensures
            final(self).keeps_identity(*old(self)),
            match (old(self)@.config.expected_network, genesis_hash) {
                (None, _) => r == Ok::<(), Error>(()) && final(self)@ == old(self)@,
                (Some(network), Err(e)) => r == Err::<(), Error>(e) && final(self)@ == old(self)@,
                (Some(network), Ok(hash)) => if hash == chain_hash_of(network) {
                    r == Ok::<(), Error>(()) && final(self)@ == old(self)@
                } else {
                    &&& r == Err::<(), Error>(Error::NetworkMismatch)
                    &&& final(self)@ == with_status(
                        (ClientView { network_mismatch: true, ..old(self)@ }),
                        InternalElectrumConnectionStatus::Terminated,
                    )
                },
            },
            is_of_other_network(old(self)@.config.expected_network, genesis_hash) ==> r == Err::<
                (),
                Error,
            >(Error::NetworkMismatch),
    {
        let Some(expected_network) = self.config.expected_network else {
            return Ok(());
        };
        let server_chain_hash = match genesis_hash {
            Ok(hash) => hash,
            Err(e) => {
                return Err(e);
            },
        };
        let expected_chain_hash = expected_network.chain_hash();
        if !server_chain_hash.same(&expected_chain_hash) {
            // Set network mismatch
            self.network_mismatch = true;
            // Mark as terminated
            self.set_status(InternalElectrumConnectionStatus::Terminated);
            // Return error
            return Err(Error::NetworkMismatch);
        }
        proof {
            if is_of_other_network(old(self)@.config.expected_network, genesis_hash) {
                let other = choose|other: Network|
                    other != expected_network && genesis_hash == Ok::<BlockHash, Error>(
                        #[trigger] chain_hash_of(other),
                    );
                assert(network_number(other) != network_number(expected_network));
                assert(network_number(other) < 5);
            }
        }
        Ok(())
    }

    /// Begins the connection task. Says whether it may run: it may not, where one is running already.
    pub fn begin_connection_task(&mut self) -> (r: bool)
        ensures
            r == !old(self)@.running,
            final(self).keeps_identity(*old(self)),
            final(self)@ == (ClientView { running: true, ..old(self)@ }),
    {
        let is_running = self.running;
        self.running = true;
        !is_running
    }

    /// What the connection task does after a connection has ended, or was not made. Where the client
    /// was not terminated it connects again, after a while that grows with the attempts.
    pub fn connection_task(&mut self, reconnect_attempt: &mut u32) -> (r: TaskNext)
        ensures
            final(self).keeps_identity(*old(self)),
            match r {
                TaskNext::Stop => {
                    &&& old(self)@.status == InternalElectrumConnectionStatus::Terminated
                    &&& final(self)@ == old(self)@
                    &&& *final(reconnect_attempt) == *old(reconnect_attempt)
                },
                TaskNext::Sleep(interval) => {
                    &&& old(self)@.status != InternalElectrumConnectionStatus::Terminated
                    &&& final(self)@ == if old(self)@.status
                        == InternalElectrumConnectionStatus::Disconnected || old(self)@.status
                        == InternalElectrumConnectionStatus::Shutdown {
                        old(self)@
                    } else {
                        with_status(old(self)@, InternalElectrumConnectionStatus::Disconnected)
                    }
                    &&& interval@ == reconnect_interval(
                        *old(reconnect_attempt),
                        old(self)@.config.reconnect_delay_initial@,
                        old(self)@.config.reconnect_delay_max@,
                    )
                    &&& *final(reconnect_attempt) == if *old(reconnect_attempt) < u32::MAX {
                        *old(reconnect_attempt) + 1
                    } else {
                        u32::MAX as int
                    }
                },
            },
    {
        // Get status
        let status = self.internal_status();
        // If the connection is terminated, break the loop.
        if status.is_terminated() {
            return TaskNext::Stop;
        }
        // Check if the client is marked as disconnected. If not, update status.
        // Check if disconnected to avoid a possible double notification
        if !status.is_disconnected_terminated_or_shutdown() {
            self.set_status(InternalElectrumConnectionStatus::Disconnected);
        }
        // Sleep before retry to connect
        let interval = next_reconnect_interval(
            *reconnect_attempt,
            self.config.reconnect_delay_initial,
            self.config.reconnect_delay_max,
        );
        *reconnect_attempt = reconnect_attempt.saturating_add(1);
        TaskNext::Sleep(interval)
    }

    /// Ends the connection task.
    pub fn end_connection_task(&mut self)
        ensures
            final(self).keeps_identity(*old(self)),
            final(self)@ == (ClientView { running: false, ..old(self)@ }),
    {
        self.running = false;
    }

    /// Begins an attempt to connect.
    pub fn begin_connect(&mut self)
        ensures
            final(self).keeps_identity(*old(self)),
            final(self)@ == with_status(
                old(self)@,
                InternalElectrumConnectionStatus::Connecting,
            ),
    {
        self.set_status(InternalElectrumConnectionStatus::Connecting);
    }

    /// Ends an attempt to connect.
    pub fn try_connect(&mut self, outcome: ConnectOutcome) -> (r: Result<(), Error>)
        ensures
            final(self).keeps_identity(*old(self)),
            match outcome {
                ConnectOutcome::Connected => {
                    &&& r == Ok::<(), Error>(())
                    &&& final(self)@ == with_status(
                        old(self)@,
                        InternalElectrumConnectionStatus::Connected,
                    )
                },
                ConnectOutcome::Failed(e) => {
                    &&& r == Err::<(), Error>(e)
                    &&& final(self)@ == with_status(
                        old(self)@,
                        InternalElectrumConnectionStatus::Disconnected,
                    )
                },
                ConnectOutcome::Terminated => {
                    &&& r == Err::<(), Error>(Error::TerminationRequest)
                    &&& final(self)@ == old(self)@
                },
            },
    {
        match outcome {
            ConnectOutcome::Connected => {
                self.set_status(InternalElectrumConnectionStatus::Connected);
                Ok(())
            },
            ConnectOutcome::Failed(e) => {
                self.set_status(InternalElectrumConnectionStatus::Disconnected);
                Err(e)
            },
            ConnectOutcome::Terminated => Err(Error::TerminationRequest),
        }
    }

    /// How the sender goes on. Ping timeouts are counted as long as they come in a row: when there are
    /// too many of them the connection is given up. Any other error of a ping, and an error of a batch,
    /// ends the sender too.
    pub fn sender_message_handler(
        &self,
        consecutive_ping_timeouts: &mut u8,
        event: SenderEvent,
    ) -> (r: SenderNext)
        ensures
            ({
                let count = *old(consecutive_ping_timeouts);
                let next: int = if count < u8::MAX {
                    count + 1
                } else {
                    u8::MAX as int
                };
                match event {
                    SenderEvent::Ping(Ok(())) => {
                        &&& r == SenderNext::Continue
                        &&& *final(consecutive_ping_timeouts) == 0
                    },
                    SenderEvent::Ping(Err(Error::Timeout)) => {
                        &&& *final(consecutive_ping_timeouts) == next
                        &&& r == if next < self@.config.max_consecutive_ping_timeouts {
                            SenderNext::Continue
                        } else {
                            SenderNext::Exit(Err(Error::Timeout))
                        }
                    },
                    SenderEvent::Ping(Err(e)) => {
                        &&& *final(consecutive_ping_timeouts) == count
                        &&& r == SenderNext::Exit(Err(e))
                    },
                    SenderEvent::Batch(Ok(())) => {
                        &&& *final(consecutive_ping_timeouts) == count
                        &&& r == SenderNext::Continue
                    },
                    SenderEvent::Batch(Err(e)) => {
                        &&& *final(consecutive_ping_timeouts) == count
                        &&& r == SenderNext::Exit(Err(e))
                    },
                    SenderEvent::Closed => {
                        &&& *final(consecutive_ping_timeouts) == count
                        &&& r == SenderNext::Exit(Ok(()))
                    },
                }
            }),
    {
        match event {
            SenderEvent::Ping(Ok(())) => {
                *consecutive_ping_timeouts = 0;
                SenderNext::Continue
            },
            SenderEvent::Ping(Err(Error::Timeout)) => {
                *consecutive_ping_timeouts = consecutive_ping_timeouts.saturating_add(1);
                if *consecutive_ping_timeouts < self.config.max_consecutive_ping_timeouts {
                    SenderNext::Continue
                } else {
                    SenderNext::Exit(Err(Error::Timeout))
                }
            },
            SenderEvent::Ping(Err(e)) => SenderNext::Exit(Err(e)),
            SenderEvent::Batch(Ok(())) => SenderNext::Continue,
            SenderEvent::Batch(Err(e)) => SenderNext::Exit(Err(e)),
            SenderEvent::Closed => SenderNext::Exit(Ok(())),
        }
    }

    /// Takes in what comes from the server: subscriptions that were confirmed and notifications of the
    /// server are notified, and nothing else.
    pub fn receiver_message_handler(&mut self, event: ServerEvent)
        ensures
            final(self).keeps_identity(*old(self)),
            final(self)@ == match notification_of(event) {
                Some(notification) => ClientView {
                    outbox: old(self)@.outbox.push(notification),
                    ..old(self)@
                },
                None => old(self)@,
            },
    {
        let notification = match event {
            ServerEvent::HeadersSubscribed { height, header } => {
                Some(ElectrumNotification::BlockHeader { height, header })
            },
            ServerEvent::ScriptHashSubscribed { hash, status } => {
                Some(ElectrumNotification::ScriptHash { hash, status })
            },
            ServerEvent::OtherResponse => None,
            ServerEvent::ResponseError => None,
            ServerEvent::Header { height, header } => {
                Some(ElectrumNotification::BlockHeader { height, header })
            },
            ServerEvent::ScriptHash { hash, status } => {
                Some(ElectrumNotification::ScriptHash { hash, status })
            },
            ServerEvent::Unknown => None,
        };
        // Send notification, if any.
        if let Some(notification) = notification {
            self.send_notification(notification);
        }
    }

    /// Whether requests may be sent: not to a server on another network.
    pub fn send_batch(&self) -> (r: Result<(), Error>)
        ensures
            r == if self@.network_mismatch {
                Err::<(), Error>(Error::NetworkMismatch)
            } else {
                Ok::<(), Error>(())
            },
    {
        if self.network_mismatch {
            return Err(Error::NetworkMismatch);
        }
        Ok(())
    }

    /// What becomes of requests once they were handed to the connection, or were not.
    pub fn finish_send(outcome: SendOutcome) -> (r: Result<(), Error>)
        ensures
            r == match outcome {
                SendOutcome::Sent => Ok::<(), Error>(()),
                SendOutcome::TimedOut => Err(Error::CommandQueueSaturated),
                SendOutcome::Closed(text) => Err(Error::MpscTrySend(text)),
            },
    {
        match outcome {
            SendOutcome::Sent => Ok(()),
            SendOutcome::TimedOut => Err(Error::CommandQueueSaturated),
            SendOutcome::Closed(text) => Err(Error::MpscTrySend(text)),
        }
    }

    /// What becomes of a response that was waited for.
    pub fn wait_batch_response<T>(outcome: WaitOutcome<T>) -> (r: Result<T, Error>)
        ensures
            r == match outcome {
                WaitOutcome::Response(response) => Ok::<T, Error>(response),
                WaitOutcome::TimedOut => Err(Error::Timeout),
                WaitOutcome::Disconnected => Err(Error::Disconnected),
            },
    {
        match outcome {
            WaitOutcome::Response(response) => Ok(response),
            WaitOutcome::TimedOut => Err(Error::Timeout),
            WaitOutcome::Disconnected => Err(Error::Disconnected),
        }
    }

    /// Connect to the electrum server and keep the connection alive.
    ///
    /// This automatically reconnects in case of disconnection. Says whether the connection task has to
    /// be spawned.
    pub fn connect(&mut self) -> (r: bool)
        ensures
            final(self).keeps_identity(*old(self)),
            final(self)@ == connecting(old(self)@),
            r == (may_connect(old(self)@) && !old(self)@.running),
    {
        // Immediately return if can't connect
        if !self.internal_status().can_connect() {
            return false;
        }
        // Update status
        // Change it to pending to avoid issues with the health check (initialized check)
        self.set_status(InternalElectrumConnectionStatus::Pending);
        // Spawn connection task
        self.spawn_connection_task()
    }

    /// Whether the connection task has to be spawned: not, where it is running already.
    pub fn spawn_connection_task(&self) -> (r: bool)
        ensures
            r == !self@.running,
    {
        !self.is_running()
    }

    /// Terminate connection with the electrum server. Says whether the tasks have to be told: not,
    /// where it was terminated already.
    pub fn disconnect(&mut self) -> (r: bool)
        ensures
            final(self).keeps_identity(*old(self)),
            r == (old(self)@.status != InternalElectrumConnectionStatus::Terminated),
            final(self)@ == disconnected(old(self)@),
    {
        // Check if it's already terminated or banned
        if self.internal_status().is_terminated() {
            return false;
        }
        // Update status
        self.set_status(InternalElectrumConnectionStatus::Terminated);
        // Shutdown all notification loops
        self.send_notification(ElectrumNotification::Shutdown);
        true
    }
}

/// Every change of the status is told, as it is shown, after what was told before, and changes nothing else.
pub proof fn a_change_of_the_status_is_told(
    client: ClientView,
    status: InternalElectrumConnectionStatus,
)
    ensures
        ({
            let after = with_status(client, status);
            &&& after.status == status
            &&& after.outbox.len() == client.outbox.len() + 1
            &&& client.outbox.is_prefix_of(after.outbox)
            &&& after.outbox.last() == ElectrumNotification::ConnectionStatusChanged(
                shown_status(status),
            )
            &&& after.running == client.running
            &&& after.network_mismatch == client.network_mismatch
            &&& after.config == client.config
        }),
{
}

/// A client that never connected, or that was terminated, is about to connect, and tells so; any other one
/// stays as it is.
pub proof fn only_an_idle_client_connects(client: ClientView)
    ensures
        client.status is Initialized || client.status is Terminated ==> {
            &&& connecting(client).status is Pending
            &&& connecting(client).outbox == client.outbox.push(
                ElectrumNotification::ConnectionStatusChanged(ElectrumConnectionStatus::Connecting),
            )
        },
        !(client.status is Initialized || client.status is Terminated) ==> connecting(client)
            == client,
{
}

/// A client that is disconnected is terminated, and tells first that it is disconnected and then that it is
/// shut down; one that is terminated already tells nothing.
pub proof fn a_disconnect_tells_of_the_shutdown(client: ClientView)
    ensures
        !(client.status is Terminated) ==> {
            &&& disconnected(client).status is Terminated
            &&& disconnected(client).outbox == client.outbox + seq![
                ElectrumNotification::ConnectionStatusChanged(
                    ElectrumConnectionStatus::Disconnected,
                ),
                ElectrumNotification::Shutdown,
            ]
            &&& disconnected(client).running == client.running
            &&& disconnected(client).config == client.config
        },
        client.status is Terminated ==> disconnected(client) == client,
{
    if !(client.status is Terminated) {
        assert(disconnected(client).outbox =~= client.outbox + seq![
            ElectrumNotification::ConnectionStatusChanged(ElectrumConnectionStatus::Disconnected),
            ElectrumNotification::Shutdown,
        ]);
    }
}

/// Headers and statuses that come from the server are told as they are, whether they answer a subscription or
/// come by themselves; nothing else is told.
pub proof fn headers_and_statuses_are_told(
    height: u32,
    header: Header,
    hash: ElectrumScriptHash,
    status: Option<ElectrumScriptStatus>,
)
    ensures
        notification_of(ServerEvent::HeadersSubscribed { height, header }) == Some(
            ElectrumNotification::BlockHeader { height, header },
        ),
        notification_of(ServerEvent::Header { height, header }) == Some(
            ElectrumNotification::BlockHeader { height, header },
        ),
        notification_of(ServerEvent::ScriptHashSubscribed { hash, status }) == Some(
            ElectrumNotification::ScriptHash { hash, status },
        ),
        notification_of(ServerEvent::ScriptHash { hash, status }) == Some(
            ElectrumNotification::ScriptHash { hash, status },
        ),
        notification_of(ServerEvent::OtherResponse) is None,
        notification_of(ServerEvent::ResponseError) is None,
        notification_of(ServerEvent::Unknown) is None,
{
}

/// A builder begins with a direct connection, a minute to connect and to wait for an answer, fifteen seconds to
/// wait for a ping, three pings that may fail, waits of two to thirty seconds between attempts, room for 4096
/// commands and notifications, and any network.
pub proof fn a_builder_begins_with_the_defaults(
    builder: ElectrumClientBuilder,
    addr: ElectrumServerAddress,
)
    requires
        is_default_builder(builder, addr),
    ensures
        builder.addr == addr,
        builder.connection_mode is Direct,
        builder.connection_timeout@ == 60_000_000_000nat,
        builder.request_timeout@ == 60_000_000_000nat,
        builder.ping_timeout@ == 15_000_000_000nat,
        builder.reconnect_delay_initial@ == 2_000_000_000nat,
        builder.reconnect_delay_max@ == 30_000_000_000nat,
        builder.max_consecutive_ping_timeouts == 3,
        builder.command_channel_size == 4096,
        builder.notification_channel_size == 4096,
        builder.expected_network is None,
{
}

/// A client has the settings of its builder, and lets at least one ping fail. It is neither connected nor
/// running, and has told nothing.
pub proof fn a_client_has_the_settings_of_its_builder(
    client: ElectrumClient,
    builder: ElectrumClientBuilder,
)
    requires
        client.is_built_from(builder),
    ensures
        client.addr == builder.addr,
        client.command_channel_size == builder.command_channel_size,
        client.notification_channel_size == builder.notification_channel_size,
        client@.config.connection_mode == builder.connection_mode,
        client@.config.connection_timeout == builder.connection_timeout,
        client@.config.request_timeout == builder.request_timeout,
        client@.config.ping_timeout == builder.ping_timeout,
        client@.config.reconnect_delay_initial == builder.reconnect_delay_initial,
        client@.config.reconnect_delay_max == builder.reconnect_delay_max,
        client@.config.expected_network == builder.expected_network,
        client@.config.max_consecutive_ping_timeouts >= 1,
        builder.max_consecutive_ping_timeouts >= 1 ==> client@.config.max_consecutive_ping_timeouts
            == builder.max_consecutive_ping_timeouts,
        builder.max_consecutive_ping_timeouts == 0 ==> client@.config.max_consecutive_ping_timeouts
            == 1,
        client@.status is Initialized,
        !client@.running,
        !client@.network_mismatch,
        client@.outbox.len() == 0,
{
}

} // verus!
