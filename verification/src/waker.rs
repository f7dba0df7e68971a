//! Which wakers a socket gets registered when the proxy borrows it.

use vstd::prelude::*;

verus! {

/// How a borrowed socket should wake its task: on receive, on send, on both,
/// never (the dummy waker), or with its wakers left as they are.
#[derive(Clone, Copy, Debug, PartialEq, Eq, Structural)]
pub enum WakerMode {
    Recv,
    Send,
    Both,
    Dummy,
    Unchanged,
}

/// One of the wakers that the device keeps per socket handle (its receive
/// and its transmit waker), or the shared dummy waker.
#[derive(Clone, Copy, Debug, PartialEq, Eq, Structural)]
pub enum WakerSlot {
    Receive,
    Transmit,
    Dummy,
}

/// The waker to register as the socket's receive waker and as its send
/// waker; `None` leaves that registration untouched.
#[derive(Clone, Copy, Debug, PartialEq, Eq, Structural)]
pub struct WakerPlan {
    pub recv: Option<WakerSlot>,
    pub send: Option<WakerSlot>,
}

/// The registrations that `mode` asks for.
pub open spec fn spec_waker_plan(mode: WakerMode) -> WakerPlan {
    match mode {
        WakerMode::Recv => WakerPlan { recv: Some(WakerSlot::Receive), send: None },
        WakerMode::Send => WakerPlan { recv: None, send: Some(WakerSlot::Transmit) },
        WakerMode::Both => WakerPlan { recv: Some(WakerSlot::Receive), send: Some(WakerSlot::Transmit) },
        WakerMode::Dummy => WakerPlan { recv: Some(WakerSlot::Dummy), send: Some(WakerSlot::Dummy) },
        WakerMode::Unchanged => WakerPlan { recv: None, send: None },
    }
}

/// Decides the waker registrations for a borrowed socket.
pub fn waker_plan(mode: WakerMode) -> (plan: WakerPlan)
    ensures
        plan == spec_waker_plan(mode),
{
    match mode {
        WakerMode::Recv => WakerPlan { recv: Some(WakerSlot::Receive), send: None },
        WakerMode::Send => WakerPlan { recv: None, send: Some(WakerSlot::Transmit) },
        WakerMode::Both => WakerPlan { recv: Some(WakerSlot::Receive), send: Some(WakerSlot::Transmit) },
        WakerMode::Dummy => WakerPlan { recv: Some(WakerSlot::Dummy), send: Some(WakerSlot::Dummy) },
        WakerMode::Unchanged => WakerPlan { recv: None, send: None },
    }
}

} // verus!
