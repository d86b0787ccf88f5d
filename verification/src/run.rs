//! What the daemon's main loop decides.

use crate::config::EbpfMode;
use crate::decision::{one_more, reported, Engine};
use std::collections::HashMap;
use vstd::prelude::*;

verus! {

/// How stale the packet worker's stamp may get before it counts as wedged.
pub const WORKER_STALL_MS: i64 = 60_000;

/// Whether the packet worker is well: it stamped lately, or there is none. A
/// worker that is not well gets no heartbeat, so that the daemon is restarted.
pub fn worker_is_healthy(dry_run: bool, now_unix_ms: i64, stamp_unix_ms: i64) -> (r: bool)
    ensures
        r == (dry_run || now_unix_ms - stamp_unix_ms < WORKER_STALL_MS),
        !dry_run ==> (r <==> now_unix_ms - stamp_unix_ms < 60_000),
{
    dry_run || (now_unix_ms as i128) - (stamp_unix_ms as i128) < WORKER_STALL_MS as i128
}

/// The mode that a configured one comes to.
pub open spec fn mode_in(configured: EbpfMode, dry_run: bool) -> EbpfMode {
    if dry_run {
        EbpfMode::Off
    } else {
        configured
    }
}

/// The mode the kernel-side layer starts in: a dry run does not touch the
/// machine.
pub fn layer_mode(configured: EbpfMode, dry_run: bool) -> (r: EbpfMode)
    ensures
        r == (if dry_run {
            EbpfMode::Off
        } else {
            configured
        }),
        r == mode_in(configured, dry_run),
{
    if dry_run {
        EbpfMode::Off
    } else {
        configured
    }
}

/// What one turn of the periodic maintenance does.
#[derive(Debug)]
pub struct Maintenance {
    /// The hits to merge into the stored counts; nothing to merge if empty.
    pub deltas: HashMap<u128, u64>,
    /// Rules ran out: the kernel's table is rebuilt and their rows are purged.
    pub expired: bool,
}

/// One turn of the periodic maintenance: the hits since the last turn, and
/// whether there is anything to purge. If so notice is given.
pub fn maintain(engine: &mut Engine, now_unix_ms: i64) -> (r: Maintenance)
    ensures
        r.deltas@ == old(engine).hits(),
        final(engine).hits() == Map::<u128, u64>::empty(),
        final(engine).rules() == reported(old(engine).rules(), old(engine).hits()),
        final(engine).policy() == old(engine).policy(),
        final(engine).notices() == (if r.expired {
            one_more(old(engine).notices())
        } else {
            old(engine).notices()
        }),
        r.expired == exists|i: int|
            0 <= i < final(engine).rules().len() && (#[trigger] final(engine).rules()[i]).over(
                now_unix_ms,
            ),
        old(engine).wf() ==> final(engine).wf(),
{
    let deltas = engine.drain_hits();
    let expired = engine.any_expired(now_unix_ms);
    if expired {
        engine.notify_rules_expired();
    }
    Maintenance { deltas, expired }
}

/// What wakes the main loop.
#[derive(Debug, Clone, Copy, PartialEq, Eq, Structural)]
pub enum Wake {
    /// A task that should run for ever ended.
    TaskEnded,
    /// Somebody asked the daemon to stop.
    StopSignal,
    /// Somebody asked the daemon to read its configuration again.
    ReloadSignal,
}

/// What the main loop does then.
#[derive(Debug, Clone, Copy, PartialEq, Eq, Structural)]
pub enum Next {
    /// Reload the policy and go on.
    Reload,
    /// Shut down in order.
    Stop,
    /// Shut down in order, and report the failure.
    Fail,
}

/// What a wake leads to.
pub open spec fn after_wake(wake: Wake, task_failed: bool) -> Next {
    match wake {
        Wake::ReloadSignal => Next::Reload,
        Wake::StopSignal => Next::Stop,
        Wake::TaskEnded => if task_failed {
            Next::Fail
        } else {
            Next::Stop
        },
    }
}

/// What the main loop does. The shutdown is the same for a failed task: the
/// worker is stopped, the hits are flushed and the socket is removed.
pub fn on_wake(wake: Wake, task_failed: bool) -> (r: Next)
    ensures
        r == (match wake {
            Wake::ReloadSignal => Next::Reload,
            Wake::StopSignal => Next::Stop,
            Wake::TaskEnded => if task_failed {
                Next::Fail
            } else {
                Next::Stop
            },
        }),
        r == after_wake(wake, task_failed),
{
    match wake {
        Wake::ReloadSignal => Next::Reload,
        Wake::StopSignal => Next::Stop,
        Wake::TaskEnded => if task_failed {
            Next::Fail
        } else {
            Next::Stop
        },
    }
}

/// The daemon goes on for a reload only, and reports a failure only if a task
/// failed by itself: a daemon that was asked to stop stops well.
pub proof fn only_a_failed_task_is_a_failure(wake: Wake, task_failed: bool)
    ensures
        after_wake(wake, task_failed) is Reload <==> wake is ReloadSignal,
        after_wake(wake, task_failed) is Fail <==> wake is TaskEnded && task_failed,
        after_wake(wake, task_failed) is Stop <==> wake is StopSignal || (wake is TaskEnded
            && !task_failed),
{
}

/// A dry run loads nothing, whatever was configured; otherwise the layer starts
/// in the mode that was configured.
pub proof fn a_dry_run_leaves_the_kernel_alone(configured: EbpfMode)
    ensures
        mode_in(configured, true) is Off,
        mode_in(configured, false) == configured,
{
}

} // verus!
