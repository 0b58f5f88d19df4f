use vstd::prelude::*;

use crate::queue::{
    Status, Thresholds, Torrent, eligible, ledger_after, outcome_of, outcomes_after,
    status_of, step_ledger, strikes_after_item, strikes_before,
};

verus! {

/// The ledger after the same item is observed by n successive runs.
pub open spec fn ledger_after_runs(
    t: Torrent,
    ledger: Map<u32, u32>,
    env: Thresholds,
    n: nat,
) -> Map<u32, u32>
    decreases n,
{
    if n == 0 {
        ledger
    } else {
        step_ledger(ledger_after_runs(t, ledger, env, (n - 1) as nat), t, env)
    }
}

/// One run over a one-item snapshot performs exactly one ledger step and
/// reports exactly that item's outcome.
pub proof fn lemma_single_item_run(t: Torrent, ledger: Map<u32, u32>, env: Thresholds)
    ensures
        ledger_after(seq![t], ledger, env) == step_ledger(ledger, t, env),
        outcomes_after(seq![t], ledger, env) =~= seq![
            outcome_of(t, strikes_before(ledger, t.id), env),
        ],
{
    let one = seq![t];
    assert(one.len() == 1);
    assert(one[0] == t);
    assert(one.skip(1) =~= Seq::<Torrent>::empty());
    assert(ledger_after(one, ledger, env) == ledger_after(
        one.skip(1),
        step_ledger(ledger, t, env),
        env,
    ));
    assert(outcomes_after(one, ledger, env) == seq![
        outcome_of(t, strikes_before(ledger, t.id), env),
    ] + outcomes_after(one.skip(1), step_ledger(ledger, t, env), env));
}

/// Idempotence under no state change: an item whose remaining time stays
/// strictly between 0 and the time threshold, whose size is below the
/// size threshold, and whose strike count is below the cap, is reported
/// Normal by every run and its strike count never changes, however many
/// runs observe it unchanged.
pub proof fn lemma_idempotent_normal(t: Torrent, ledger: Map<u32, u32>, env: Thresholds, n: nat)
    requires
        0 < t.eta < env.time_threshold,
        t.size < env.size_threshold,
        strikes_before(ledger, t.id) < env.strike_threshold,
    ensures
        strikes_before(ledger_after_runs(t, ledger, env, n), t.id) == strikes_before(
            ledger,
            t.id,
        ),
        status_of(t, strikes_before(ledger_after_runs(t, ledger, env, n), t.id), env)
            == Status::Normal,
    decreases n,
{
    if n > 0 {
        lemma_idempotent_normal(t, ledger, env, (n - 1) as nat);
    }
}

/// Monotonic strike accumulation: an item that is strike-eligible on
/// every run, below the size ceiling and not exempted as Pending (its
/// remaining time is nonzero, or striking is aggressive — the pending
/// bypass takes precedence over eligibility when the time threshold is
/// 0), accumulates min(n, strike_threshold) strikes over n runs from a
/// fresh ledger entry; each run reports Removed exactly when the count it
/// leaves behind has reached the cap, and Striked on every earlier run.
pub proof fn lemma_strike_accumulation(t: Torrent, ledger: Map<u32, u32>, env: Thresholds, n: nat)
    requires
        eligible(t, env),
        t.size < env.size_threshold,
        t.eta != 0 || env.aggressive_strikes,
        strikes_before(ledger, t.id) == 0,
    ensures
        strikes_before(ledger_after_runs(t, ledger, env, n), t.id) as nat == (if n
            <= env.strike_threshold {
            n
        } else {
            env.strike_threshold as nat
        }),
        forall|k: nat|
            1 <= k <= n ==> #[trigger] status_of(
                t,
                strikes_before(ledger_after_runs(t, ledger, env, (k - 1) as nat), t.id),
                env,
            ) == (if k >= env.strike_threshold {
                Status::Removed
            } else {
                Status::Striked
            }),
    decreases n,
{
    if n > 0 {
        lemma_strike_accumulation(t, ledger, env, (n - 1) as nat);
        assert forall|k: nat|
            1 <= k <= n implies #[trigger] status_of(
            t,
            strikes_before(ledger_after_runs(t, ledger, env, (k - 1) as nat), t.id),
            env,
        ) == (if k >= env.strike_threshold {
            Status::Removed
        } else {
            Status::Striked
        }) by {
            lemma_strike_accumulation(t, ledger, env, (k - 1) as nat);
        }
    }
}

/// Bypass precedence: an item with no remaining time, while striking is
/// not aggressive, is reported Pending and keeps its strike count, on any
/// ledger and regardless of its size.
pub proof fn lemma_bypass_precedence(t: Torrent, s0: u32, env: Thresholds)
    requires
        t.eta == 0,
        !env.aggressive_strikes,
    ensures
        status_of(t, s0, env) == Status::Pending,
        strikes_after_item(t, s0, env) == s0,
{
}

/// Size exemption permanence: an item at or above the size threshold
/// never accumulates strikes, over any number of runs and from any
/// ledger, even when it would otherwise be strike-eligible; each run
/// reports it Pending or Ignored.
pub proof fn lemma_size_exemption(t: Torrent, ledger: Map<u32, u32>, env: Thresholds, n: nat)
    requires
        t.size >= env.size_threshold,
    ensures
        strikes_before(ledger_after_runs(t, ledger, env, n), t.id) == strikes_before(
            ledger,
            t.id,
        ),
        status_of(t, strikes_before(ledger_after_runs(t, ledger, env, n), t.id), env)
            == Status::Pending || status_of(
            t,
            strikes_before(ledger_after_runs(t, ledger, env, n), t.id),
            env,
        ) == Status::Ignored,
    decreases n,
{
    if n > 0 {
        lemma_size_exemption(t, ledger, env, (n - 1) as nat);
    }
}

} // verus!
