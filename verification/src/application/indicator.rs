//! The status light: blinks while the bus is quiet, glows once frames
//! arrive.

use vstd::prelude::*;

use crate::application::app::IndicatorEvent;

verus! {

/// What the status light shows.
#[derive(Debug, Clone, Copy, PartialEq, Eq, Structural)]
pub enum Mode {
    /// Blinking: no frame has arrived yet.
    Idle,
    /// Solid: frames are arriving.
    Active,
}

/// The mode after one cycle of the light, given the event received during
/// it, if any: the bus coming online turns an idle light solid; nothing else
/// changes it.
pub open spec fn mode_after(mode: Mode, event: Option<IndicatorEvent>) -> Mode {
    match (mode, event) {
        (Mode::Idle, Some(IndicatorEvent::CanOnline)) => Mode::Active,
        _ => mode,
    }
}

/// The mode after one cycle of the light, given the event received during
/// it, if any.
pub fn next_mode(mode: Mode, event: Option<IndicatorEvent>) -> (r: Mode)
    ensures
        r == mode_after(mode, event),
{
    match event {
        Some(IndicatorEvent::CanOnline) => match mode {
            Mode::Idle => Mode::Active,
            Mode::Active => mode,
        },
        None => mode,
    }
}

/// Once solid, the light stays solid whatever arrives.
pub proof fn lemma_active_stays(event: Option<IndicatorEvent>)
    ensures
        mode_after(Mode::Active, event) == Mode::Active,
{
}

} // verus!
