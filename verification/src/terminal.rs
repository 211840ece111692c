//! The terminal session controller: raw/cooked mode toggling and window
//! geometry, over one process-wide slot that captures the terminal's
//! attributes before entering raw mode.
//!
//! Entering and leaving raw mode are idempotent, and a failed transition
//! leaves the captured-attributes slot untouched, so the session is never
//! observed half entered. The attribute transformation that raw mode applies
//! is the library's own verified logic; only the device reads and writes go
//! through trusted calls into rustix.

use vstd::prelude::*;

verus! {

/// An error from the terminal device: no usable terminal, or an operating
/// system error carrying its errno value.
#[derive(Debug, Clone, Copy, PartialEq, Eq, Structural)]
pub enum IoError {
    NoTerminal,
    Device(i32),
}

/// The terminal attributes this controller reads and restores: the four
/// termios flag words and the minimal-read and read-timeout control codes.
#[derive(Debug, Clone, Copy, PartialEq, Eq, Structural)]
pub struct TermAttrs {
    pub input_flags: u32,
    pub output_flags: u32,
    pub control_flags: u32,
    pub local_flags: u32,
    pub min_read: u8,
    pub read_timeout: u8,
}

/// Input flags cleared by raw mode: break handling, parity marking, high-bit
/// stripping, CR/NL translation and flow control.
pub const RAW_INPUT_CLEAR: u32 = 0x1 | 0x2 | 0x8 | 0x20 | 0x40 | 0x80 | 0x100 | 0x400;

/// Output flags cleared by raw mode: implementation-defined output
/// processing.
pub const RAW_OUTPUT_CLEAR: u32 = 0x1;

/// Control flags cleared by raw mode: character size and parity generation.
pub const RAW_CONTROL_CLEAR: u32 = 0x30 | 0x100;

/// Control flags set by raw mode: eight-bit characters.
pub const RAW_CONTROL_SET: u32 = 0x30;

/// Local flags cleared by raw mode: echoing, canonical processing,
/// signal-generating characters and extended input processing.
pub const RAW_LOCAL_CLEAR: u32 = 0x1 | 0x2 | 0x8 | 0x40 | 0x8000;

/// The raw-mode transformation of a set of terminal attributes: canonical
/// processing, echoing and signal generation disabled, eight-bit characters,
/// reads that deliver one byte at a time without a timeout.
pub open spec fn spec_raw_of(a: TermAttrs) -> TermAttrs {
    TermAttrs {
        input_flags: a.input_flags & !RAW_INPUT_CLEAR,
        output_flags: a.output_flags & !RAW_OUTPUT_CLEAR,
        control_flags: (a.control_flags & !RAW_CONTROL_CLEAR) | RAW_CONTROL_SET,
        local_flags: a.local_flags & !RAW_LOCAL_CLEAR,
        min_read: 1,
        read_timeout: 0,
    }
}

/// Apply the raw-mode transformation to a set of terminal attributes.
pub fn make_raw_attrs(a: &TermAttrs) -> (r: TermAttrs)
    ensures
        r == spec_raw_of(*a),
{
    TermAttrs {
        input_flags: a.input_flags & !RAW_INPUT_CLEAR,
        output_flags: a.output_flags & !RAW_OUTPUT_CLEAR,
        control_flags: (a.control_flags & !RAW_CONTROL_CLEAR) | RAW_CONTROL_SET,
        local_flags: a.local_flags & !RAW_LOCAL_CLEAR,
        min_read: 1,
        read_timeout: 0,
    }
}

/// An owned descriptor of the terminal device.
#[verifier::external_type_specification]
#[verifier::external_body]
pub struct ExOwnedFd(rustix::fd::OwnedFd);

/// The operating system's terminal attribute record, carried opaquely
/// between the device calls; the library reads and edits it only through
/// `TermAttrs`.
#[verifier::external_type_specification]
#[verifier::external_body]
pub struct ExTermios(rustix::termios::Termios);

/// Resolves the terminal device: the process's standard input when that is a
/// terminal, else /dev/tty. Relies on rustix::termios::isatty,
/// rustix::io::dup and rustix::fs::open. Which descriptor comes back depends
/// on the environment, so nothing is promised of it.
#[verifier::external_body]
fn terminal_device() -> (r: Result<rustix::fd::OwnedFd, IoError>) {
    let s = rustix::stdio::stdin();
    if rustix::termios::isatty(s) {
        match rustix::io::dup(s) {
            Ok(f) => Ok(f),
            Err(e) => Err(IoError::Device(e.raw_os_error())),
        }
    } else {
        match rustix::fs::open("/dev/tty", rustix::fs::OFlags::RDWR, rustix::fs::Mode::empty()) {
            Ok(f) => Ok(f),
            Err(_) => Err(IoError::NoTerminal),
        }
    }
}

/// Reads the device's attribute record. Relies on
/// rustix::termios::tcgetattr; what comes back depends on the device.
#[verifier::external_body]
fn read_termios(fd: &rustix::fd::OwnedFd) -> (r: Result<rustix::termios::Termios, IoError>) {
    match rustix::termios::tcgetattr(fd) {
        Ok(t) => Ok(t),
        Err(e) => Err(IoError::Device(e.raw_os_error())),
    }
}

/// Writes an attribute record back to the device. Relies on
/// rustix::termios::tcsetattr; whether it succeeds depends on the device.
#[verifier::external_body]
fn write_termios(fd: &rustix::fd::OwnedFd, t: &rustix::termios::Termios) -> (r: Result<
    (),
    IoError,
>) {
    match rustix::termios::tcsetattr(fd, rustix::termios::OptionalActions::Now, t) {
        Ok(()) => Ok(()),
        Err(e) => Err(IoError::Device(e.raw_os_error())),
    }
}

/// The library's view of an attribute record: the four flag words via
/// rustix's bits accessors, and the minimal-read and read-timeout codes.
#[verifier::external_body]
fn attrs_of_termios(t: &rustix::termios::Termios) -> (r: TermAttrs) {
    TermAttrs {
        input_flags: t.input_modes.bits(),
        output_flags: t.output_modes.bits(),
        control_flags: t.control_modes.bits(),
        local_flags: t.local_modes.bits(),
        min_read: t.special_codes[rustix::termios::SpecialCodeIndex::VMIN],
        read_timeout: t.special_codes[rustix::termios::SpecialCodeIndex::VTIME],
    }
}

/// A copy of an attribute record with the six modeled fields replaced from
/// `a`, via rustix's from_bits_retain constructors; the fields the library
/// does not model are kept, so a restore does not disturb them.
#[verifier::external_body]
fn termios_with_attrs(t: &rustix::termios::Termios, a: &TermAttrs) -> (r: rustix::termios::Termios) {
    let mut out = t.clone();
    out.input_modes = rustix::termios::InputModes::from_bits_retain(a.input_flags);
    out.output_modes = rustix::termios::OutputModes::from_bits_retain(a.output_flags);
    out.control_modes = rustix::termios::ControlModes::from_bits_retain(a.control_flags);
    out.local_modes = rustix::termios::LocalModes::from_bits_retain(a.local_flags);
    out.special_codes[rustix::termios::SpecialCodeIndex::VMIN] = a.min_read;
    out.special_codes[rustix::termios::SpecialCodeIndex::VTIME] = a.read_timeout;
    out
}

/// Reads the terminal's current attributes, as the library models them.
fn read_device_attributes() -> (r: Result<(rustix::fd::OwnedFd, rustix::termios::Termios, TermAttrs), IoError>) {
    let fd = match terminal_device() {
        Ok(f) => f,
        Err(e) => {
            return Err(e);
        },
    };
    match read_termios(&fd) {
        Ok(t) => {
            let a = attrs_of_termios(&t);
            Ok((fd, t, a))
        },
        Err(e) => Err(e),
    }
}

/// Writes the given modeled attributes to the terminal, on top of the
/// device's current record.
fn write_device_attributes(a: &TermAttrs) -> (r: Result<(), IoError>) {
    let fd = match terminal_device() {
        Ok(f) => f,
        Err(e) => {
            return Err(e);
        },
    };
    let base = match read_termios(&fd) {
        Ok(t) => t,
        Err(e) => {
            return Err(e);
        },
    };
    let out = termios_with_attrs(&base, a);
    write_termios(&fd, &out)
}

/// The terminal's window geometry. Pixel width and height may be zero when
/// the platform cannot report them.
#[derive(Debug, Clone, Copy, PartialEq, Eq, Structural)]
pub struct WindowSize {
    pub rows: u16,
    pub columns: u16,
    pub width: u16,
    pub height: u16,
}

/// Queries the window geometry of the controlling terminal, falling back to
/// the process's standard output when /dev/tty cannot be opened. Relies on
/// rustix::fs::open and rustix::termios::tcgetwinsize; the result depends on
/// the device, so nothing is promised of the value.
#[verifier::external_body]
pub fn window_size() -> (r: Result<WindowSize, IoError>) {
    let o = rustix::fs::open("/dev/tty", rustix::fs::OFlags::RDWR, rustix::fs::Mode::empty());
    let got = match &o {
        Ok(f) => rustix::termios::tcgetwinsize(f),
        Err(_) => rustix::termios::tcgetwinsize(rustix::stdio::stdout()),
    };
    match got {
        Ok(w) => Ok(
            WindowSize { rows: w.ws_row, columns: w.ws_col, width: w.ws_xpixel, height: w.ws_ypixel },
        ),
        Err(e) => Err(IoError::Device(e.raw_os_error())),
    }
}

/// The raw-mode session: the one slot holding the attributes captured before
/// entering raw mode. Raw mode counts as entered exactly while the slot is
/// full. Callers that share a session across threads must put it behind a
/// lock; the operations themselves never wait.
pub struct TerminalSession {
    pub prior_attributes: Option<TermAttrs>,
}

impl TerminalSession {
    /// Raw mode counts as entered exactly when attributes are captured.
    pub open spec fn is_entered(self) -> bool {
        self.prior_attributes is Some
    }

    /// A session that has not entered raw mode.
    pub fn new() -> (s: TerminalSession)
        ensures
            !s.is_entered(),
    {
        TerminalSession { prior_attributes: None }
    }
}

/// Whether the session is in raw mode.
pub fn is_raw_mode_enabled(session: &TerminalSession) -> (r: bool)
    ensures
        r == session.is_entered(),
{
    session.prior_attributes.is_some()
}

/// Enter raw mode. Idempotent: a session already in raw mode is left exactly
/// as it is and the call succeeds without touching the device. The original
/// attributes are captured only after the raw attributes were written back
/// successfully, so a failed transition leaves the session not entered.
pub fn enable_raw_mode(session: &mut TerminalSession) -> (r: Result<(), IoError>)
    ensures
        old(session).is_entered() ==> r is Ok && *final(session) == *old(session),
        r is Err ==> *final(session) == *old(session),
        r is Ok ==> final(session).is_entered(),
{
    if session.prior_attributes.is_some() {
        return Ok(());
    }
    let (fd, tios, attrs) = match read_device_attributes() {
        Ok(triple) => triple,
        Err(e) => {
            return Err(e);
        },
    };
    let raw = make_raw_attrs(&attrs);
    let raw_tios = termios_with_attrs(&tios, &raw);
    match write_termios(&fd, &raw_tios) {
        Ok(()) => {
            session.prior_attributes = Some(attrs);
            Ok(())
        },
        Err(e) => Err(e),
    }
}

/// Leave raw mode. Idempotent: a session not in raw mode is left exactly as
/// it is and the call succeeds without touching the device. The captured
/// attributes are cleared only after they were written back successfully.
pub fn disable_raw_mode(session: &mut TerminalSession) -> (r: Result<(), IoError>)
    ensures
        !old(session).is_entered() ==> r is Ok && *final(session) == *old(session),
        r is Err ==> *final(session) == *old(session),
        r is Ok ==> !final(session).is_entered(),
{
    match session.prior_attributes {
        Some(a) => {
            match write_device_attributes(&a) {
                Ok(()) => {
                    session.prior_attributes = None;
                    Ok(())
                },
                Err(e) => Err(e),
            }
        },
        None => Ok(()),
    }
}

/// The controller together with the device it governs, as one value:
/// `device` holds the device's current attributes, `captured` the attributes
/// saved before entering raw mode. The `model_enter` and `model_leave`
/// functions are the controller's decision core on this pair, with the
/// device write shown as an assignment; `enable_raw_mode` and
/// `disable_raw_mode` perform the same steps against the real device.
pub struct TerminalControl {
    pub device: TermAttrs,
    pub captured: Option<TermAttrs>,
}

/// Entering raw mode on the success path: a no-op when already entered, else
/// the device takes the raw form of its attributes and the prior attributes
/// are captured.
pub open spec fn spec_enter(t: TerminalControl) -> TerminalControl {
    match t.captured {
        Some(_) => t,
        None => TerminalControl { device: spec_raw_of(t.device), captured: Some(t.device) },
    }
}

/// Leaving raw mode on the success path: a no-op when not entered, else the
/// captured attributes go back to the device and the slot empties.
pub open spec fn spec_leave(t: TerminalControl) -> TerminalControl {
    match t.captured {
        Some(a) => TerminalControl { device: a, captured: None },
        None => t,
    }
}

pub fn model_enter(t: &mut TerminalControl)
    ensures
        *final(t) == spec_enter(*old(t)),
{
    if t.captured.is_none() {
        let prior = t.device;
        t.device = make_raw_attrs(&prior);
        t.captured = Some(prior);
    }
}

pub fn model_leave(t: &mut TerminalControl)
    ensures
        *final(t) == spec_leave(*old(t)),
{
    match t.captured {
        Some(a) => {
            t.device = a;
            t.captured = None;
        },
        None => {},
    }
}

/// Entering raw mode twice is entering it once: the second enter is a no-op.
pub proof fn lemma_enter_idempotent(t: TerminalControl)
    ensures
        spec_enter(spec_enter(t)) == spec_enter(t),
{
}

/// Leaving raw mode twice is leaving it once: the second leave is a no-op.
pub proof fn lemma_leave_idempotent(t: TerminalControl)
    ensures
        spec_leave(spec_leave(t)) == spec_leave(t),
{
}

/// After entering raw mode and then leaving it, the device attributes equal
/// the attributes captured immediately before entering, and nothing stays
/// captured.
pub proof fn lemma_raw_mode_round_trip(t: TerminalControl)
    requires
        t.captured is None,
    ensures
        spec_leave(spec_enter(t)).device == t.device,
        spec_leave(spec_enter(t)).captured is None,
{
}

} // verus!
