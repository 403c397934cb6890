//! Whether the storage server can be reached, as all parts of the agent see it.
use vstd::prelude::*;

verus! {

const STATUS_ONLINE: u8 = 0;

const STATUS_OFFLINE: u8 = 1;

const STATUS_RECONNECTING: u8 = 2;

/// Whether the storage server can be reached.
#[derive(Clone, Copy, Debug, PartialEq, Eq, Structural)]
pub enum NasStatus {
    Online,
    Offline,
    Reconnecting,
}

/// The status that a number stands for; an unknown number stands for `Offline`.
pub open spec fn status_of(v: u8) -> NasStatus {
    if v == 0 {
        NasStatus::Online
    } else if v == 2 {
        NasStatus::Reconnecting
    } else {
        NasStatus::Offline
    }
}

impl From<u8> for NasStatus {
    fn from(v: u8) -> (s: NasStatus) {
        match v {
            STATUS_ONLINE => NasStatus::Online,
            STATUS_OFFLINE => NasStatus::Offline,
            STATUS_RECONNECTING => NasStatus::Reconnecting,
            _ => NasStatus::Offline,
        }
    }
}

impl vstd::std_specs::convert::FromSpecImpl<u8> for NasStatus {
    open spec fn obeys_from_spec() -> bool {
        true
    }

    open spec fn from_spec(v: u8) -> NasStatus {
        status_of(v)
    }
}

/// Keeps track of whether the storage server can be reached.
pub struct NasConnectivity {
    status: u8,
}

impl View for NasConnectivity {
    type V = NasStatus;

    closed spec fn view(&self) -> NasStatus {
        status_of(self.status)
    }
}

impl NasConnectivity {
    /// The server is taken to be reachable at first.
    pub fn new() -> (c: NasConnectivity)
        ensures
            c@ == NasStatus::Online,
    {
        NasConnectivity { status: STATUS_ONLINE }
    }

    /// The present status.
    pub fn status(&self) -> (s: NasStatus)
        ensures
            s == self@,
    {
        NasStatus::from(self.status)
    }

    /// Sets the status.
    pub fn set_status(&mut self, s: NasStatus)
        ensures
            final(self)@ == s,
    {
        let v: u8 = match s {
            NasStatus::Online => STATUS_ONLINE,
            NasStatus::Offline => STATUS_OFFLINE,
            NasStatus::Reconnecting => STATUS_RECONNECTING,
        };
        self.status = v;
    }

    /// Whether the server can be reached.
    pub fn is_online(&self) -> (r: bool)
        ensures
            r == (self@ == NasStatus::Online),
    {
        self.status == STATUS_ONLINE
    }

    /// Reports a network error: a server that was taken to be reachable no longer is. Returned is
    /// whether this report made the difference.
    pub fn report_network_error(&mut self) -> (first: bool)
        ensures
            first == (old(self)@ == NasStatus::Online),
            final(self)@ == if first {
                NasStatus::Offline
            } else {
                old(self)@
            },
    {
        if self.status == STATUS_ONLINE {
            self.status = STATUS_OFFLINE;
            true
        } else {
            false
        }
    }
}

/// What kind of error a file operation ended with, as far as it tells the network from the disk.
#[derive(Clone, Copy, Debug, PartialEq, Eq, Structural)]
pub enum IoErrorKind {
    ConnectionReset,
    ConnectionAborted,
    NotConnected,
    TimedOut,
    BrokenPipe,
    Other,
}

/// Error codes of the system that stand for a failing network: a network path that was not found,
/// an unexpected network error, a network name that is gone and a stalled connection.
pub open spec fn network_code(code: i32) -> bool {
    code == 53 || code == 59 || code == 64 || code == 121
}

/// Whether an error comes from the network and not from the local file system.
pub fn is_network_error(kind: IoErrorKind, code: Option<i32>) -> (r: bool)
    ensures
        r == (kind != IoErrorKind::Other || (code matches Some(c) && network_code(c))),
{
    let by_kind = match kind {
        IoErrorKind::Other => false,
        _ => true,
    };
    let by_code = match code {
        Some(c) => c == 53 || c == 59 || c == 64 || c == 121,
        None => false,
    };
    by_kind || by_code
}

/// A failing network is told by the kind of the error or by one of four codes, and by nothing else.
pub proof fn law_network_errors_are_told_apart(kind: IoErrorKind, code: Option<i32>, r: bool)
    requires
        call_ensures(is_network_error, (kind, code), r),
    ensures
        !(kind is Other) ==> r,
        kind is Other ==> (r <==> code == Some(53i32) || code == Some(59i32) || code == Some(64i32)
            || code == Some(121i32)),
{
}

/// A number that is not known stands for a server that is out of reach.
pub proof fn law_numbers_stand_for_states(v: u8)
    ensures
        status_of(v) is Online <==> v == 0,
        status_of(v) is Reconnecting <==> v == 2,
        status_of(v) is Offline <==> v == 1 || v > 2,
{
}

/// A network error takes a server offline that was online, and only the first such report says so.
pub proof fn law_first_report_takes_the_server_offline(c: &mut NasConnectivity, first: bool)
    requires
        call_ensures(NasConnectivity::report_network_error, (c,), first),
    ensures
        first <==> old(c)@ is Online,
        !(final(c)@ is Online),
        old(c)@ is Reconnecting ==> final(c)@ is Reconnecting,
        old(c)@ is Online ==> final(c)@ is Offline,
{
}

} // verus!
