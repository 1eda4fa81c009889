use vstd::prelude::*;
use vstd::std_specs::convert::FromSpecImpl;

verus! {

/// Minimum retransmission timeout in no-delay mode (ms).
pub const IKCP_RTO_NDL: u32 = 30;

/// Minimum retransmission timeout in normal mode (ms).
pub const IKCP_RTO_MIN: u32 = 100;

/// Initial retransmission timeout (ms).
pub const IKCP_RTO_DEF: u32 = 200;

/// Largest retransmission timeout (ms).
pub const IKCP_RTO_MAX: u32 = 60000;

/// Default send window, in segments.
pub const IKCP_WND_SND: u32 = 32;

/// Default receive window, in segments.
pub const IKCP_WND_RCV: u32 = 128;

/// Default maximum transmission unit, in bytes.
pub const IKCP_MTU_DEF: u32 = 1400;

/// Fast acknowledgement threshold.
pub const IKCP_ACK_FAST: u32 = 3;

/// Default interval between update ticks (ms).
pub const IKCP_INTERVAL: u32 = 100;

/// Size of the segment header on the wire, in bytes.
pub const IKCP_OVERHEAD: u32 = 24;

/// Number of transmissions of one segment after which the link is reported dead.
pub const IKCP_DEADLINK: u32 = 20;

/// Initial slow-start threshold, in segments.
pub const IKCP_THRESH_INIT: u32 = 2;

/// Smallest slow-start threshold, in segments.
pub const IKCP_THRESH_MIN: u32 = 2;

/// First wait before probing a closed remote window (ms).
pub const IKCP_PROBE_INIT: u32 = 7000;

/// Longest wait between two window probes (ms).
pub const IKCP_PROBE_LIMIT: u32 = 120000;

/// Largest number of fast retransmissions of one segment.
pub const IKCP_FASTACK_LIMIT: u32 = 5;

/// Wire tag of a data segment.
pub const IKCP_CMD_PUSH: u32 = 81;

/// Wire tag of an acknowledgement.
pub const IKCP_CMD_ACK: u32 = 82;

/// Wire tag of a window probe.
pub const IKCP_CMD_WASK: u32 = 83;

/// Wire tag of a window report.
pub const IKCP_CMD_WINS: u32 = 84;

/// The four commands a segment can carry.
#[derive(Debug, Clone, Copy, PartialEq, Eq, Structural)]
pub enum Command {
    /// Push data
    Push,
    /// Acknowledge one sequence number
    Ack,
    /// Window probe (ask)
    Wask,
    /// Window size (tell)
    Wins,
}

impl Command {
    /// The wire tag of this command.
    pub open spec fn tag(self) -> u32 {
        match self {
            Command::Push => 81,
            Command::Ack => 82,
            Command::Wask => 83,
            Command::Wins => 84,
        }
    }

    /// The command that a wire tag stands for, if any.
    pub open spec fn of_tag(value: u32) -> Option<Command> {
        if value == 81 {
            Some(Command::Push)
        } else if value == 82 {
            Some(Command::Ack)
        } else if value == 83 {
            Some(Command::Wask)
        } else if value == 84 {
            Some(Command::Wins)
        } else {
            None
        }
    }

    /// Reads a wire tag; any value other than the four tags is rejected.
    pub fn try_from(value: u32) -> (r: Result<Command, &'static str>)
        ensures
            r.is_ok() <==> Command::of_tag(value).is_some(),
            r.is_ok() ==> Some(r.unwrap()) == Command::of_tag(value),
            r.is_ok() ==> r.unwrap().tag() == value,
            r.is_err() ==> r == Err::<Command, &'static str>("Invalid command value"),
    {
        match value {
            81 => Ok(Command::Push),
            82 => Ok(Command::Ack),
            83 => Ok(Command::Wask),
            84 => Ok(Command::Wins),
            _ => Err("Invalid command value"),
        }
    }
}

impl From<Command> for u32 {
    fn from(command: Command) -> (r: u32) {
        match command {
            Command::Push => 81,
            Command::Ack => 82,
            Command::Wask => 83,
            Command::Wins => 84,
        }
    }
}

impl FromSpecImpl<Command> for u32 {
    open spec fn obeys_from_spec() -> bool {
        true
    }

    open spec fn from_spec(command: Command) -> u32 {
        command.tag()
    }
}

/// Reading the tag of a command gives the command back.
pub proof fn command_tag_round_trip(c: Command)
    ensures
        Command::of_tag(c.tag()) == Some(c),
{
}

/// Errors reported to the application. None of them is fatal.
#[derive(Debug, Clone, Copy, PartialEq, Eq, Structural)]
pub enum KcpError {
    /// Nothing is ready in the receive queue
    QueueEmpty,
    /// Buffer is too small to hold the data
    BufferTooSmall,
    /// Message fragments are incomplete
    IncompleteMessage,
    /// Window size is too small to hold the data
    WindowFull,
}

/// Pending window-probe work, as a set of bits.
#[derive(Debug, Clone, Copy, PartialEq, Eq, Structural)]
pub struct KcpProbeFlags {
    pub bits: u32,
}

impl KcpProbeFlags {
    /// No probe work pending.
    pub const NONE: u32 = 0;

    /// A window probe must be sent.
    pub const ASK_SEND: u32 = 1;

    /// A window report must be sent.
    pub const ASK_TELL: u32 = 2;

    /// The flags whose bits are the known bits of `bits`.
    pub fn from_bits_truncate(bits: u32) -> (r: Self)
        ensures
            r.bits == bits & 3,
    {
        KcpProbeFlags { bits: bits & 3 }
    }

    pub fn empty() -> (r: Self)
        ensures
            r.bits == 0,
    {
        KcpProbeFlags { bits: 0 }
    }

    pub fn bits(&self) -> (r: u32)
        ensures
            r == self.bits,
    {
        self.bits
    }

    /// Whether every bit of `mask` is set.
    pub fn contains(&self, mask: u32) -> (r: bool)
        ensures
            r == (self.bits & mask == mask),
    {
        self.bits & mask == mask
    }

    /// Sets the bits of `mask`.
    pub fn insert(&mut self, mask: u32)
        ensures
            final(self).bits == old(self).bits | mask,
    {
        self.bits = self.bits | mask;
    }

    /// Clears every bit.
    pub fn clear(&mut self)
        ensures
            final(self).bits == 0,
    {
        self.bits = 0;
    }
}

/// Categories of diagnostic events, as a set of bits.
#[derive(Debug, Clone, Copy, PartialEq, Eq, Structural)]
pub struct KcpLogFlags {
    pub bits: u32,
}

impl KcpLogFlags {
    /// Basic output
    pub const OUTPUT: u32 = 1;

    /// Basic input
    pub const INPUT: u32 = 2;

    /// Outgoing data segments
    pub const DATA_SEND: u32 = 4;

    /// Data handed to the application
    pub const DATA_RECV: u32 = 8;

    /// Incoming data packets
    pub const IN_DATA: u32 = 16;

    /// Incoming acknowledgements
    pub const IN_ACK: u32 = 32;

    /// Incoming window probes
    pub const IN_PROBE: u32 = 64;

    /// Incoming window reports
    pub const IN_WINS: u32 = 128;

    /// Outgoing data packets
    pub const OUT_DATA: u32 = 256;

    /// Outgoing acknowledgements
    pub const OUT_ACK: u32 = 512;

    /// Outgoing window probes
    pub const OUT_PROBE: u32 = 1024;

    /// Outgoing window reports
    pub const OUT_WINS: u32 = 2048;

    /// The flags whose bits are the known bits of `bits`.
    pub fn from_bits_truncate(bits: u32) -> (r: Self)
        ensures
            r.bits == bits & 0xfff,
    {
        KcpLogFlags { bits: bits & 0xfff }
    }

    pub fn empty() -> (r: Self)
        ensures
            r.bits == 0,
    {
        KcpLogFlags { bits: 0 }
    }

    pub fn bits(&self) -> (r: u32)
        ensures
            r == self.bits,
    {
        self.bits
    }

    /// Whether the two sets share a flag.
    pub fn intersects(&self, other: KcpLogFlags) -> (r: bool)
        ensures
            r == (self.bits & other.bits != 0),
    {
        self.bits & other.bits != 0
    }
}

} // verus!
