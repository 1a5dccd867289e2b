//! The client's session logic: dispatch of inbound messages, the TAP-reader's
//! outbound filter, the bounded register procedure, the keepalive loop's
//! decisions, and the session phase machine.
//!
//! The functions here decide; the surrounding process performs the I/O they
//! call for (sending datagrams, writing to the TAP, sleeping) and hands back
//! what it observed.

use vstd::prelude::*;

use vstd::string::StringExecFns;

use crate::message::Message;
use crate::message::MessageView;
use crate::net::spec_frame_src;
use crate::net::Ipv4Address;
use crate::net::MacAddress;

verus! {

/// Seconds a whole register (or keepalive) procedure may take before it
/// gives up.
pub const REGISTER_WINDOW_SECS: u64 = 15;

/// Seconds one wait for a register result or a pong may take.
pub const ATTEMPT_TIMEOUT_SECS: u64 = 5;

/// Seconds between two keepalive rounds.
pub const KEEPALIVE_PERIOD_SECS: u64 = 5;

/// The outcome of one registration attempt, as signalled to the register
/// coordinator by the inbound-UDP worker.
pub enum RegisterResult {
    Success { ip: Ipv4Address, subnet_mask: Ipv4Address },
    Fail { reason: String },
}

/// The mathematical image of a [`RegisterResult`].
pub enum RegisterResultView {
    Success { ip: Ipv4Address, subnet_mask: Ipv4Address },
    Fail { reason: Seq<char> },
}

impl View for RegisterResult {
    type V = RegisterResultView;

    open spec fn view(&self) -> RegisterResultView {
        match self {
            RegisterResult::Success { ip, subnet_mask } => RegisterResultView::Success {
                ip: *ip,
                subnet_mask: *subnet_mask,
            },
            RegisterResult::Fail { reason } => RegisterResultView::Fail { reason: reason@ },
        }
    }
}

/// What the inbound-UDP worker must do with one decoded message.
pub enum ClientEvent {
    /// Write the relayed frame to the TAP device.
    WriteTap { ethernet_frame: Vec<u8> },
    /// Hand the result to the register coordinator.
    RegisterSignal { result: RegisterResult },
    /// Hand a pong to the keepalive coordinator.
    PongSignal,
    /// An unexpected variant; dropped silently.
    Ignore,
}

/// The mathematical image of a [`ClientEvent`].
pub enum ClientEventView {
    WriteTap { ethernet_frame: Seq<u8> },
    RegisterSignal { result: RegisterResultView },
    PongSignal,
    Ignore,
}

impl View for ClientEvent {
    type V = ClientEventView;

    open spec fn view(&self) -> ClientEventView {
        match self {
            ClientEvent::WriteTap { ethernet_frame } => ClientEventView::WriteTap {
                ethernet_frame: ethernet_frame@,
            },
            ClientEvent::RegisterSignal { result } => ClientEventView::RegisterSignal {
                result: result@,
            },
            ClientEvent::PongSignal => ClientEventView::PongSignal,
            ClientEvent::Ignore => ClientEventView::Ignore,
        }
    }
}

/// The client's dispatch for one received message: relayed frames go to the
/// TAP, register results to the register coordinator, pongs to the keepalive
/// coordinator; anything else is ignored.
pub open spec fn spec_client_dispatch(m: MessageView) -> ClientEventView {
    match m {
        MessageView::Data { ethernet_frame } => ClientEventView::WriteTap { ethernet_frame },
        MessageView::RegisterSuccess { ip, subnet_mask } => ClientEventView::RegisterSignal {
            result: RegisterResultView::Success { ip, subnet_mask },
        },
        MessageView::RegisterFail { reason } => ClientEventView::RegisterSignal {
            result: RegisterResultView::Fail { reason },
        },
        MessageView::Pong => ClientEventView::PongSignal,
        _ => ClientEventView::Ignore,
    }
}

/// Dispatch for one message received from the server.
pub fn handle_message(message: Message) -> (event: ClientEvent)
    ensures
        event@ == spec_client_dispatch(message@),
{
    match message {
        Message::Data { ethernet_frame } => ClientEvent::WriteTap { ethernet_frame },
        Message::RegisterSuccess { ip, subnet_mask } => ClientEvent::RegisterSignal {
            result: RegisterResult::Success { ip, subnet_mask },
        },
        Message::RegisterFail { reason } => ClientEvent::RegisterSignal {
            result: RegisterResult::Fail { reason },
        },
        Message::Pong => ClientEvent::PongSignal,
        _ => ClientEvent::Ignore,
    }
}

/// The TAP-reader's decision for one frame read from the device.
pub enum TapFrameAction {
    /// Relay the frame to the server inside a `Data` message.
    Send { message: Message },
    /// Fewer than 12 bytes: no complete Ethernet header; skip it.
    SkipInvalid,
    /// The source MAC is not the device's own; skip injected traffic.
    SkipForeign,
}

/// Decides what to do with one frame read from the TAP: frames without a
/// complete Ethernet header are skipped, frames whose source MAC is not the
/// device's own are skipped, everything else is relayed unchanged.
pub fn classify_tap_frame(ethernet_frame: &[u8], mac_address: MacAddress) -> (action:
    TapFrameAction)
    ensures
        ethernet_frame@.len() < 12 ==> action is SkipInvalid,
        ethernet_frame@.len() >= 12 && spec_frame_src(ethernet_frame@) != mac_address
            ==> action is SkipForeign,
        ethernet_frame@.len() >= 12 && spec_frame_src(ethernet_frame@) == mac_address ==> (action
            matches TapFrameAction::Send { message } && message@ == (MessageView::Data {
            ethernet_frame: ethernet_frame@,
        })),
{
    match crate::net::get_mac_addresses(ethernet_frame) {
        Ok((source_mac_address, _)) => {
            if source_mac_address == mac_address {
                let frame = vstd::slice::slice_to_vec(ethernet_frame);
                TapFrameAction::Send { message: Message::Data { ethernet_frame: frame } }
            } else {
                TapFrameAction::SkipForeign
            }
        },
        Err(_) => TapFrameAction::SkipInvalid,
    }
}

/// What the register procedure does next.
pub enum RegisterStep {
    /// Send another `Register` and wait up to [`ATTEMPT_TIMEOUT_SECS`].
    Retry,
    /// Accepted: set the TAP's address to `ip`/`subnet_mask`, then report
    /// success.
    Configure { ip: Ipv4Address, subnet_mask: Ipv4Address },
    /// Explicitly refused; report the server's reason and do not retry.
    Refused { reason: String },
    /// The whole window elapsed without an answer.
    TimedOut { reason: String },
}

/// One round of the bounded register procedure. `received` is what the last
/// wait produced (`None` on a wait timeout); `elapsed` is how many seconds
/// the procedure has run. A result in hand is honoured even past the window;
/// with none, the procedure retries inside the window and gives up with
/// reason `"Timeout"` after it.
pub fn register_step(elapsed: u64, received: Option<RegisterResult>) -> (step: RegisterStep)
    ensures
        match received {
            Some(result) => match result@ {
                RegisterResultView::Success { ip, subnet_mask } => step
                    matches RegisterStep::Configure { ip: i, subnet_mask: m } && i == ip && m
                    == subnet_mask,
                RegisterResultView::Fail { reason } => step matches RegisterStep::Refused {
                    reason: r,
                } && r@ == reason,
            },
            None => {
                if elapsed < REGISTER_WINDOW_SECS {
                    step is Retry
                } else {
                    step matches RegisterStep::TimedOut { reason } && reason@ == "Timeout"@
                }
            },
        },
{
    match received {
        Some(RegisterResult::Success { ip, subnet_mask }) => RegisterStep::Configure {
            ip,
            subnet_mask,
        },
        Some(RegisterResult::Fail { reason }) => RegisterStep::Refused { reason },
        None => {
            if elapsed < REGISTER_WINDOW_SECS {
                RegisterStep::Retry
            } else {
                RegisterStep::TimedOut { reason: String::from_str("Timeout") }
            }
        },
    }
}

/// What the keepalive procedure does next.
#[derive(Clone, Copy, PartialEq, Eq, Structural, Debug)]
pub enum KeepaliveStep {
    /// Send another `Ping` and wait up to [`ATTEMPT_TIMEOUT_SECS`].
    SendPing,
    /// A pong arrived: the server is alive; sleep until the next round.
    Alive,
    /// No pong within the window: the server is lost; re-register.
    Lost,
}

/// One round of the keepalive procedure. A pong in hand settles the round;
/// with none, the client pings again inside the window and declares the
/// server lost after it.
pub fn keepalive_step(elapsed: u64, pong_received: bool) -> (step: KeepaliveStep)
    ensures
        pong_received ==> step is Alive,
        !pong_received && elapsed < REGISTER_WINDOW_SECS ==> step is SendPing,
        !pong_received && elapsed >= REGISTER_WINDOW_SECS ==> step is Lost,
{
    if pong_received {
        KeepaliveStep::Alive
    } else if elapsed < REGISTER_WINDOW_SECS {
        KeepaliveStep::SendPing
    } else {
        KeepaliveStep::Lost
    }
}

/// Drains every pending item from a coordination queue, so a stale signal
/// from an earlier round cannot satisfy the current one.
pub fn clear_receiver<T>(receiver: &mut Vec<T>)
    ensures
        final(receiver)@ == Seq::<T>::empty(),
{
    receiver.clear();
}

/// The client session's phases.
#[derive(Clone, Copy, PartialEq, Eq, Structural, Debug)]
pub enum ClientPhase {
    /// Initial registration in progress.
    Registering,
    /// Relaying frames and exchanging keepalives.
    Running,
    /// Keepalive window exhausted; registering again.
    ReRegistering,
    /// A registration failed; the process exits with the reason.
    Terminated,
}

/// Session-level events that move the client between phases.
#[derive(Clone, Copy, PartialEq, Eq, Structural, Debug)]
pub enum ClientPhaseEvent {
    /// A register procedure ended in success.
    RegisterOutcomeOk,
    /// A register procedure was refused or timed out.
    RegisterOutcomeFail,
    /// A pong arrived within the keepalive window.
    PongReceived,
    /// No pong arrived within the keepalive window.
    PongWindowExhausted,
}

/// The session phase machine. Registration failure — initial or during
/// recovery — terminates the session; a lost keepalive window sends a
/// running session back to registration.
pub open spec fn spec_phase_step(phase: ClientPhase, event: ClientPhaseEvent) -> ClientPhase {
    match (phase, event) {
        (ClientPhase::Registering, ClientPhaseEvent::RegisterOutcomeOk) => ClientPhase::Running,
        (ClientPhase::Registering, ClientPhaseEvent::RegisterOutcomeFail) => ClientPhase::Terminated,
        (ClientPhase::Running, ClientPhaseEvent::PongReceived) => ClientPhase::Running,
        (ClientPhase::Running, ClientPhaseEvent::PongWindowExhausted) => ClientPhase::ReRegistering,
        (ClientPhase::ReRegistering, ClientPhaseEvent::RegisterOutcomeOk) => ClientPhase::Running,
        (ClientPhase::ReRegistering, ClientPhaseEvent::RegisterOutcomeFail) => ClientPhase::Terminated,
        _ => phase,
    }
}

/// Steps the session phase machine.
pub fn phase_step(phase: ClientPhase, event: ClientPhaseEvent) -> (next: ClientPhase)
    ensures
        next == spec_phase_step(phase, event),
{
    match (phase, event) {
        (ClientPhase::Registering, ClientPhaseEvent::RegisterOutcomeOk) => ClientPhase::Running,
        (ClientPhase::Registering, ClientPhaseEvent::RegisterOutcomeFail) => ClientPhase::Terminated,
        (ClientPhase::Running, ClientPhaseEvent::PongReceived) => ClientPhase::Running,
        (ClientPhase::Running, ClientPhaseEvent::PongWindowExhausted) => ClientPhase::ReRegistering,
        (ClientPhase::ReRegistering, ClientPhaseEvent::RegisterOutcomeOk) => ClientPhase::Running,
        (ClientPhase::ReRegistering, ClientPhaseEvent::RegisterOutcomeFail) => ClientPhase::Terminated,
        (p, _) => p,
    }
}

} // verus!
