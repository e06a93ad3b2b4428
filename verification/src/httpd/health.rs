//! `/api/health`.

use crate::app::AppState;
use crate::json::Health;
use vstd::prelude::*;

verus! {

/// What `GET /api/health` is answered.
pub open spec fn health_of(
    enabled: bool,
    first_address: usize,
    overflow: bool,
    second_address: usize,
) -> Health {
    Health {
        airband_enabled: enabled,
        dma_address: second_address,
        dma_advancing: first_address != second_address,
        overflow,
    }
}

/// The answer to `GET /api/health`, from the overflow flag and the write
/// address at the beginning of a short time and the write address at its end.
pub fn get_health(
    state: &AppState,
    first_address: usize,
    overflow: bool,
    second_address: usize,
) -> (h: Health)
    ensures
        h.airband_enabled == state.locked(),
        h.dma_address == second_address,
        h.dma_advancing == (first_address != second_address),
        h.overflow == overflow,
        h == health_of(state.locked(), first_address, overflow, second_address),
{
    Health {
        airband_enabled: state.airband_locked(),
        dma_address: second_address,
        dma_advancing: second_address != first_address,
        overflow,
    }
}

/// The address that is shown is the later one, and the DMA is shown to advance
/// exactly when it differs from the earlier one, in either direction: the write
/// address wraps. Neither depends on the overflow flag or on whether the
/// receiver is enabled, which are shown as they are.
pub proof fn law_health(
    enabled: bool,
    overflow: bool,
    other_enabled: bool,
    other_overflow: bool,
    first: usize,
    second: usize,
)
    ensures
        ({
            let h = health_of(enabled, first, overflow, second);
            let back = health_of(other_enabled, second, other_overflow, first);
            &&& h.dma_address == second
            &&& h.dma_advancing == back.dma_advancing
            &&& !h.dma_advancing <==> h.dma_address == back.dma_address
            &&& h.airband_enabled == enabled
            &&& h.overflow == overflow
        }),
{
}

} // verus!
