use vstd::prelude::*;

verus! {

/// Bytes of PTY output one wake may drain, shared by every session.
pub const PTY_DRAIN_BUDGET_BYTES: usize = 131072;

/// The share of the per-wake drain budget each of `session_count` sessions gets.
pub fn pty_drain_budget_per_session(session_count: usize) -> (budget: usize)
    ensures
        session_count == 0 ==> budget == 0,
        session_count > 0 ==> budget == if PTY_DRAIN_BUDGET_BYTES / session_count == 0 {
            1
        } else {
            PTY_DRAIN_BUDGET_BYTES / session_count
        },
        0 < session_count <= PTY_DRAIN_BUDGET_BYTES ==> budget * session_count
            <= PTY_DRAIN_BUDGET_BYTES,
{
    if session_count == 0 {
        return 0;
    }
    let share = PTY_DRAIN_BUDGET_BYTES / session_count;
    proof {
        let c = session_count as int;
        let b = PTY_DRAIN_BUDGET_BYTES as int;
        assert((b / c) * c <= b) by (nonlinear_arith)
            requires
                c > 0,
                b >= 0,
        ;
        if c <= b {
            assert(b / c >= 1) by (nonlinear_arith)
                requires
                    0 < c <= b,
            ;
        }
    }
    if share == 0 { 1 } else { share }
}

} // verus!
