//! Electrum connection status.
use vstd::prelude::*;
use vstd::std_specs::convert::FromSpecImpl;

verus! {

/// Electrum connection status.
#[derive(Debug, Clone, Copy, PartialEq, Eq, PartialOrd, Ord, Hash, Structural)]
pub enum InternalElectrumConnectionStatus {
    /// The client has just been created.
    Initialized,
    /// The client will try to connect shortly.
    Pending,
    /// Trying to connecting.
    Connecting,
    /// Connected.
    Connected,
    /// The connection failed, but another attempt will occur soon.
    Disconnected,
    /// The connection has been terminated and no retry will occur.
    Terminated,
    /// Shutdown
    Shutdown,
}

/// The number by which a status is kept.
pub open spec fn status_number(status: InternalElectrumConnectionStatus) -> u8 {
    match status {
        InternalElectrumConnectionStatus::Initialized => 0,
        InternalElectrumConnectionStatus::Pending => 1,
        InternalElectrumConnectionStatus::Connecting => 2,
        InternalElectrumConnectionStatus::Connected => 3,
        InternalElectrumConnectionStatus::Disconnected => 4,
        InternalElectrumConnectionStatus::Terminated => 5,
        InternalElectrumConnectionStatus::Shutdown => 6,
    }
}

impl InternalElectrumConnectionStatus {
    /// The number by which the status is kept.
    pub fn number(&self) -> (r: u8)
        ensures
            r == status_number(*self),
    {
        match self {
            InternalElectrumConnectionStatus::Initialized => 0,
            InternalElectrumConnectionStatus::Pending => 1,
            InternalElectrumConnectionStatus::Connecting => 2,
            InternalElectrumConnectionStatus::Connected => 3,
            InternalElectrumConnectionStatus::Disconnected => 4,
            InternalElectrumConnectionStatus::Terminated => 5,
            InternalElectrumConnectionStatus::Shutdown => 6,
        }
    }

    /// The status that is kept by a number, if there is one.
    pub fn from_number(number: u8) -> (r: Option<InternalElectrumConnectionStatus>)
        ensures
            match r {
                Some(status) => status_number(status) == number,
                None => number > 6,
            },
    {
        match number {
            0 => Some(InternalElectrumConnectionStatus::Initialized),
            1 => Some(InternalElectrumConnectionStatus::Pending),
            2 => Some(InternalElectrumConnectionStatus::Connecting),
            3 => Some(InternalElectrumConnectionStatus::Connected),
            4 => Some(InternalElectrumConnectionStatus::Disconnected),
            5 => Some(InternalElectrumConnectionStatus::Terminated),
            6 => Some(InternalElectrumConnectionStatus::Shutdown),
            _ => None,
        }
    }

    /// Check if is `disconnected`, `terminated` or `shutdown`.
    pub fn is_disconnected_terminated_or_shutdown(&self) -> (r: bool)
        ensures
            r == (*self == InternalElectrumConnectionStatus::Disconnected || *self
                == InternalElectrumConnectionStatus::Terminated || *self
                == InternalElectrumConnectionStatus::Shutdown),
    {
        matches!(
            self,
            InternalElectrumConnectionStatus::Disconnected
                | InternalElectrumConnectionStatus::Terminated
                | InternalElectrumConnectionStatus::Shutdown
        )
    }

    /// Check if is [`InternalElectrumConnectionStatus::Terminated`]
    pub fn is_terminated(&self) -> (r: bool)
        ensures
            r == (*self == InternalElectrumConnectionStatus::Terminated),
    {
        matches!(self, InternalElectrumConnectionStatus::Terminated)
    }

    /// Check if is [`InternalElectrumConnectionStatus::Shutdown`]
    pub fn is_shutdown(&self) -> (r: bool)
        ensures
            r == (*self == InternalElectrumConnectionStatus::Shutdown),
    {
        matches!(self, InternalElectrumConnectionStatus::Shutdown)
    }

    /// Check if the client can start a connection (status is `initialized` or `terminated`)
    pub fn can_connect(&self) -> (r: bool)
        ensures
            r == (*self == InternalElectrumConnectionStatus::Initialized || *self
                == InternalElectrumConnectionStatus::Terminated),
    {
        matches!(
            self,
            InternalElectrumConnectionStatus::Initialized
                | InternalElectrumConnectionStatus::Terminated
        )
    }
}

/// A cell for the connection status, which keeps it as a number.
#[derive(Debug)]
pub struct AtomicElectrumConnectionStatus {
    value: u8,
}

impl View for AtomicElectrumConnectionStatus {
    type V = InternalElectrumConnectionStatus;

    closed spec fn view(&self) -> InternalElectrumConnectionStatus {
        choose|status: InternalElectrumConnectionStatus| status_number(status) == self.value
    }
}

impl Default for AtomicElectrumConnectionStatus {
    fn default() -> (r: Self)
        ensures
            r@ == InternalElectrumConnectionStatus::Initialized,
    {
        Self::new(InternalElectrumConnectionStatus::Initialized)
    }
}

impl AtomicElectrumConnectionStatus {
    #[verifier::type_invariant]
    spec fn wf(&self) -> bool {
        self.value <= 6
    }

    /// A cell that holds a status.
    pub fn new(status: InternalElectrumConnectionStatus) -> (r: Self)
        ensures
            r@ == status,
    {
        AtomicElectrumConnectionStatus { value: status.number() }
    }

    /// Puts a status into the cell.
    pub fn set(&mut self, status: InternalElectrumConnectionStatus)
        ensures
            final(self)@ == status,
    {
        self.value = status.number();
    }

    /// The status in the cell.
    pub fn load(&self) -> (r: InternalElectrumConnectionStatus)
        ensures
            r == self@,
    {
        proof {
            use_type_invariant(self);
        }
        match InternalElectrumConnectionStatus::from_number(self.value) {
            Some(status) => status,
            None => InternalElectrumConnectionStatus::Shutdown,
        }
    }
}

/// Electrum connection status.
#[derive(Debug, Clone, Copy, PartialEq, Eq, PartialOrd, Ord, Hash, Structural)]
pub enum ElectrumConnectionStatus {
    /// Trying to connecting.
    Connecting,
    /// Connected.
    Connected,
    /// The client is disconnected
    Disconnected,
}

/// The status that is shown for an internal one.
pub open spec fn shown_status(
    status: InternalElectrumConnectionStatus,
) -> ElectrumConnectionStatus {
    match status {
        InternalElectrumConnectionStatus::Pending => ElectrumConnectionStatus::Connecting,
        InternalElectrumConnectionStatus::Connecting => ElectrumConnectionStatus::Connecting,
        InternalElectrumConnectionStatus::Connected => ElectrumConnectionStatus::Connected,
        _ => ElectrumConnectionStatus::Disconnected,
    }
}

impl From<InternalElectrumConnectionStatus> for ElectrumConnectionStatus {
    fn from(status: InternalElectrumConnectionStatus) -> (r: Self) {
        match status {
            InternalElectrumConnectionStatus::Pending => ElectrumConnectionStatus::Connecting,
            InternalElectrumConnectionStatus::Connecting => ElectrumConnectionStatus::Connecting,
            InternalElectrumConnectionStatus::Connected => ElectrumConnectionStatus::Connected,
            InternalElectrumConnectionStatus::Initialized => ElectrumConnectionStatus::Disconnected,
            InternalElectrumConnectionStatus::Disconnected => ElectrumConnectionStatus::Disconnected,
            InternalElectrumConnectionStatus::Terminated => ElectrumConnectionStatus::Disconnected,
            InternalElectrumConnectionStatus::Shutdown => ElectrumConnectionStatus::Disconnected,
        }
    }
}

impl FromSpecImpl<InternalElectrumConnectionStatus> for ElectrumConnectionStatus {
    open spec fn obeys_from_spec() -> bool {
        true
    }

    open spec fn from_spec(status: InternalElectrumConnectionStatus) -> Self {
        shown_status(status)
    }
}

impl ElectrumConnectionStatus {
    /// Check if it's connecting.
    pub fn is_connecting(&self) -> (r: bool)
        ensures
            r == (*self == ElectrumConnectionStatus::Connecting),
    {
        matches!(self, ElectrumConnectionStatus::Connecting)
    }

    /// Check if it's connected.
    pub fn is_connected(&self) -> (r: bool)
        ensures
            r == (*self == ElectrumConnectionStatus::Connected),
    {
        matches!(self, ElectrumConnectionStatus::Connected)
    }

    /// Check if it's disconnected.
    pub fn is_disconnected(&self) -> (r: bool)
        ensures
            r == (*self == ElectrumConnectionStatus::Disconnected),
    {
        matches!(self, ElectrumConnectionStatus::Disconnected)
    }

    /// The name of the status.
    pub fn name(&self) -> (r: &'static str)
        ensures
            r@ == match *self {
                ElectrumConnectionStatus::Connecting => "Connecting"@,
                ElectrumConnectionStatus::Connected => "Connected"@,
                ElectrumConnectionStatus::Disconnected => "Disconnected"@,
            },
    {
        match self {
            ElectrumConnectionStatus::Connecting => "Connecting",
            ElectrumConnectionStatus::Connected => "Connected",
            ElectrumConnectionStatus::Disconnected => "Disconnected",
        }
    }
}

/// A status can be told from its number, so a cell gives back what was put into it.
pub proof fn status_number_is_unique(
    a: InternalElectrumConnectionStatus,
    b: InternalElectrumConnectionStatus,
)
    requires
        status_number(a) == status_number(b),
    ensures
        a == b,
{
}

/// Shown as connected is only a client that is connected, and as connecting one that is about to connect; any
/// other is shown as disconnected.
pub proof fn only_a_connected_client_is_shown_as_such(status: InternalElectrumConnectionStatus)
    ensures
        shown_status(status) is Connected <==> status is Connected,
        shown_status(status) is Connecting <==> status is Pending || status is Connecting,
        shown_status(status) is Disconnected <==> status is Initialized || status is Disconnected
            || status is Terminated || status is Shutdown,
{
}

/// The states are numbered from zero in the order in which a connection goes through them.
pub proof fn states_are_numbered_in_order(status: InternalElectrumConnectionStatus)
    ensures
        status_number(status) <= 6,
        status_number(InternalElectrumConnectionStatus::Initialized) == 0,
        status_number(InternalElectrumConnectionStatus::Initialized) < status_number(
            InternalElectrumConnectionStatus::Pending,
        ),
        status_number(InternalElectrumConnectionStatus::Pending) < status_number(
            InternalElectrumConnectionStatus::Connecting,
        ),
        status_number(InternalElectrumConnectionStatus::Connecting) < status_number(
            InternalElectrumConnectionStatus::Connected,
        ),
        status_number(InternalElectrumConnectionStatus::Connected) < status_number(
            InternalElectrumConnectionStatus::Disconnected,
        ),
        status_number(InternalElectrumConnectionStatus::Disconnected) < status_number(
            InternalElectrumConnectionStatus::Terminated,
        ),
        status_number(InternalElectrumConnectionStatus::Terminated) < status_number(
            InternalElectrumConnectionStatus::Shutdown,
        ),
{
}

} // verus!
