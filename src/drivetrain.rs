use vstd::prelude::*;

verus! {

/// Health of the drivetrain task.
#[derive(Debug, Clone, Copy, PartialEq, Eq, Structural)]
pub enum DrivetrainStatus {
    Initializing,
    Healthy,
    Disconnected,
}

/// Bytes in one telemetry frame from the motor controller.
pub const TELEMETRY_FRAME_LEN: usize = 12;

/// One telemetry frame: both encoder counts, and the controller's yaw in
/// degrees as the bits of an IEEE-754 single.
#[derive(Debug, Clone, Copy, PartialEq, Eq, Structural)]
pub struct DrivetrainTelemetry {
    pub left_clicks: i32,
    pub right_clicks: i32,
    pub yaw_bits: u32,
}

/// The little-endian 32-bit word at `at`.
pub open spec fn le_word(b: Seq<u8>, at: int) -> int {
    b[at] + b[at + 1] * 0x100 + b[at + 2] * 0x1_0000 + b[at + 3] * 0x100_0000
}

/// A 32-bit word read as two's complement.
pub open spec fn as_signed(w: int) -> int {
    if w >= 0x8000_0000 {
        w - 0x1_0000_0000
    } else {
        w
    }
}

fn read_le_word(b: &[u8; 12], at: usize) -> (r: u32)
    requires
        at + 4 <= 12,
    ensures
        r == le_word(b@, at as int),
{
    b[at] as u32 + (b[at + 1] as u32) * 0x100 + (b[at + 2] as u32) * 0x1_0000 + (b[at + 3] as u32)
        * 0x100_0000
}

fn word_as_signed(w: u32) -> (r: i32)
    ensures
        r == as_signed(w as int),
{
    if w >= 0x8000_0000 {
        ((w - 0x8000_0000) as i32) - 0x7FFF_FFFF - 1
    } else {
        w as i32
    }
}

impl DrivetrainTelemetry {
    /// Reads a frame `{ i32 left, i32 right, f32 yaw }`, little-endian.
    pub fn from_bytes(frame: &[u8; 12]) -> (r: DrivetrainTelemetry)
        ensures
            r.left_clicks == as_signed(le_word(frame@, 0)),
            r.right_clicks == as_signed(le_word(frame@, 4)),
            r.yaw_bits == le_word(frame@, 8),
    {
        DrivetrainTelemetry {
            left_clicks: word_as_signed(read_le_word(frame, 0)),
            right_clicks: word_as_signed(read_le_word(frame, 4)),
            yaw_bits: read_le_word(frame, 8),
        }
    }
}

/// Commands to the motor controller. Speeds and gains are the bits of
/// IEEE-754 singles.
#[derive(Debug, Clone, Copy, PartialEq, Eq, Structural)]
pub enum DrivetrainCommand {
    /// Target wheel speeds in encoder clicks per second.
    SetWheelSpeeds { left_bits: u32, right_bits: u32 },
    EnableOdometry,
    DisableOdometry,
    /// Proportional gain of the wheel-speed loops.
    SetKp { kp_bits: u32 },
}

/// The four little-endian bytes of `w`.
pub open spec fn le_bytes(w: u32) -> Seq<u8> {
    seq![
        (w % 0x100) as u8,
        ((w / 0x100) % 0x100) as u8,
        ((w / 0x1_0000) % 0x100) as u8,
        (w / 0x100_0000) as u8,
    ]
}

/// The bytes sent for a command: its opcode, then its payload.
pub open spec fn command_bytes(c: DrivetrainCommand) -> Seq<u8> {
    match c {
        DrivetrainCommand::SetWheelSpeeds { left_bits, right_bits } => seq![0x00u8] + le_bytes(
            left_bits,
        ) + le_bytes(right_bits),
        DrivetrainCommand::EnableOdometry => seq![0x01u8],
        DrivetrainCommand::DisableOdometry => seq![0x02u8],
        DrivetrainCommand::SetKp { kp_bits } => seq![0x03u8] + le_bytes(kp_bits),
    }
}

fn push_le_bytes(out: &mut Vec<u8>, w: u32)
    ensures
        final(out)@ == old(out)@ + le_bytes(w),
{
    out.push((w % 0x100) as u8);
    out.push(((w / 0x100) % 0x100) as u8);
    out.push(((w / 0x1_0000) % 0x100) as u8);
    out.push((w / 0x100_0000) as u8);
    assert(out@ =~= old(out)@ + le_bytes(w));
}

impl DrivetrainCommand {
    pub fn to_bytes(&self) -> (r: Vec<u8>)
        ensures
            r@ == command_bytes(*self),
    {
        let mut out: Vec<u8> = Vec::new();
        match *self {
            DrivetrainCommand::SetWheelSpeeds { left_bits, right_bits } => {
                out.push(0x00);
                push_le_bytes(&mut out, left_bits);
                push_le_bytes(&mut out, right_bits);
                assert(out@ =~= seq![0x00u8] + le_bytes(left_bits) + le_bytes(right_bits));
            },
            DrivetrainCommand::EnableOdometry => {
                out.push(0x01);
                assert(out@ =~= seq![0x01u8]);
            },
            DrivetrainCommand::DisableOdometry => {
                out.push(0x02);
                assert(out@ =~= seq![0x02u8]);
            },
            DrivetrainCommand::SetKp { kp_bits } => {
                out.push(0x03);
                push_le_bytes(&mut out, kp_bits);
                assert(out@ =~= seq![0x03u8] + le_bytes(kp_bits));
            },
        }
        out
    }
}

/// Wait before reopening the port after it could not be opened.
pub const REOPEN_DELAY_MS: u64 = 10;

/// Period of the read-command-write cycle.
pub const CYCLE_PERIOD_MS: u64 = 10;

/// Where the drivetrain task stands with its serial port.
#[derive(Debug, Clone, Copy, PartialEq, Eq, Structural)]
pub enum DrivetrainLink {
    /// Opening the port.
    Connecting,
    /// Restarting the telemetry stream so that frames are read whole.
    Aligning,
    /// Exchanging telemetry and commands.
    Running,
}

/// How the last piece of outside work ended.
#[derive(Debug, Clone, Copy, PartialEq, Eq, Structural)]
pub enum DrivetrainEvent {
    Opened,
    OpenFailed,
    Aligned,
    AlignFailed,
    CycleDone,
    CycleFailed,
}

/// The next piece of outside work.
#[derive(Debug, Clone, Copy, PartialEq, Eq, Structural)]
pub enum DrivetrainAction {
    /// Open the port after `delay_ms`.
    Open { delay_ms: u64 },
    /// Disable telemetry, drain the input, enable telemetry.
    Align,
    /// After `delay_ms`: read the waiting telemetry frames, then send the
    /// commanded wheel speeds.
    Cycle { delay_ms: u64 },
}

/// The task's next link state, action and published health.
#[derive(Debug, Clone, Copy, PartialEq, Eq, Structural)]
pub struct DrivetrainStep {
    pub link: DrivetrainLink,
    pub action: DrivetrainAction,
    pub status: DrivetrainStatus,
}

/// Decides what the drivetrain task does after `event` in state `link`,
/// with `status` published so far. A failure, or an event that does not
/// belong to the state, drops the link: the port is reopened and the task is
/// reported disconnected. The task never gives up.
pub fn drivetrain_step(link: DrivetrainLink, status: DrivetrainStatus, event: DrivetrainEvent) -> (r: DrivetrainStep)
    ensures
        link == DrivetrainLink::Connecting && event == DrivetrainEvent::Opened ==> r == (DrivetrainStep {
            link: DrivetrainLink::Aligning,
            action: DrivetrainAction::Align,
            status,
        }),
        link == DrivetrainLink::Connecting && event == DrivetrainEvent::OpenFailed ==> r == (DrivetrainStep {
            link: DrivetrainLink::Connecting,
            action: DrivetrainAction::Open { delay_ms: REOPEN_DELAY_MS },
            status,
        }),
        link == DrivetrainLink::Aligning && event == DrivetrainEvent::Aligned ==> r == (DrivetrainStep {
            link: DrivetrainLink::Running,
            action: DrivetrainAction::Cycle { delay_ms: 0 },
            status: DrivetrainStatus::Healthy,
        }),
        link == DrivetrainLink::Running && event == DrivetrainEvent::CycleDone ==> r == (DrivetrainStep {
            link: DrivetrainLink::Running,
            action: DrivetrainAction::Cycle { delay_ms: CYCLE_PERIOD_MS },
            status: DrivetrainStatus::Healthy,
        }),
        !(link == DrivetrainLink::Connecting && (event == DrivetrainEvent::Opened || event
            == DrivetrainEvent::OpenFailed)) && !(link == DrivetrainLink::Aligning && event
            == DrivetrainEvent::Aligned) && !(link == DrivetrainLink::Running && event
            == DrivetrainEvent::CycleDone) ==> r == (DrivetrainStep {
            link: DrivetrainLink::Connecting,
            action: DrivetrainAction::Open { delay_ms: 0 },
            status: DrivetrainStatus::Disconnected,
        }),
{
    let dropped = DrivetrainStep {
        link: DrivetrainLink::Connecting,
        action: DrivetrainAction::Open { delay_ms: 0 },
        status: DrivetrainStatus::Disconnected,
    };
    match (link, event) {
        (DrivetrainLink::Connecting, DrivetrainEvent::Opened) => DrivetrainStep {
            link: DrivetrainLink::Aligning,
            action: DrivetrainAction::Align,
            status,
        },
        (DrivetrainLink::Connecting, DrivetrainEvent::OpenFailed) => DrivetrainStep {
            link: DrivetrainLink::Connecting,
            action: DrivetrainAction::Open { delay_ms: REOPEN_DELAY_MS },
            status,
        },
        (DrivetrainLink::Aligning, DrivetrainEvent::Aligned) => DrivetrainStep {
            link: DrivetrainLink::Running,
            action: DrivetrainAction::Cycle { delay_ms: 0 },
            status: DrivetrainStatus::Healthy,
        },
        (DrivetrainLink::Running, DrivetrainEvent::CycleDone) => DrivetrainStep {
            link: DrivetrainLink::Running,
            action: DrivetrainAction::Cycle { delay_ms: CYCLE_PERIOD_MS },
            status: DrivetrainStatus::Healthy,
        },
        _ => dropped,
    }
}

} // verus!
