//! The watch/rebuild decisions: which tree a watcher observes decides the
//! debounce window and the action a batch of events triggers, and debouncing
//! itself coalesces every burst of events within a window into one trigger.

use vstd::prelude::*;

verus! {

/// The debounce window of the source watcher, in milliseconds.
pub const SOURCE_DEBOUNCE_MS: u64 = 2000;

/// The debounce window of the output watcher, in milliseconds.  It is longer
/// than the source window so that the output changes a build itself causes
/// batch into one reload per build cycle.
pub const OUTPUT_DEBOUNCE_MS: u64 = 2500;

/// Which tree a watcher observes.
pub enum WatchTarget {
    /// The document and theme directories.
    SourceTree,
    /// The built output directory.
    OutputTree,
}

/// What a batch of filesystem events triggers.
#[derive(PartialEq, Eq, Structural)]
pub enum WatchAction {
    /// Run one full build.
    Rebuild,
    /// Signal the live-reload collaborator.
    Reload,
}

/// A source-tree batch triggers exactly one full build; an output-tree batch
/// signals one reload.
pub fn watch_action(target: &WatchTarget) -> (r: WatchAction)
    ensures
        target is SourceTree <==> r == WatchAction::Rebuild,
        target is OutputTree <==> r == WatchAction::Reload,
{
    match target {
        WatchTarget::SourceTree => WatchAction::Rebuild,
        WatchTarget::OutputTree => WatchAction::Reload,
    }
}

/// The debounce window of a watcher.
pub fn debounce_window_ms(target: &WatchTarget) -> (r: u64)
    ensures
        target is SourceTree ==> r == SOURCE_DEBOUNCE_MS,
        target is OutputTree ==> r == OUTPUT_DEBOUNCE_MS,
{
    match target {
        WatchTarget::SourceTree => SOURCE_DEBOUNCE_MS,
        WatchTarget::OutputTree => OUTPUT_DEBOUNCE_MS,
    }
}

/// Whether event `i` of a nondecreasing timestamp sequence begins a new
/// batch: the first event does, and so does every event that arrives more
/// than `window` after its predecessor.
pub open spec fn is_batch_start(times: Seq<u64>, window: u64, i: int) -> bool {
    i == 0 || times[i] - times[i - 1] > window
}

/// Coalesces a burst of events into batches: returns the index of each
/// event that begins a batch, in order.  Every event belongs to exactly one
/// batch, so each batch triggers exactly one action.
pub fn debounce_batches(times: &Vec<u64>, window: u64) -> (r: Vec<usize>)
    requires
        forall|i: int| 0 < i < times@.len() ==> times@[i - 1] <= #[trigger] times@[i],
    ensures
        forall|k: int|
            0 <= k < r@.len() ==> 0 <= #[trigger] r@[k] < times@.len() && is_batch_start(
                times@,
                window,
                r@[k] as int,
            ),
        forall|i: int|
            0 <= i < times@.len() && is_batch_start(times@, window, i) ==> exists|k: int|
                0 <= k < r@.len() && r@[k] == i,
        forall|k: int| 0 < k < r@.len() ==> r@[k - 1] < #[trigger] r@[k],
{
    let n = times.len();
    let mut r: Vec<usize> = Vec::new();
    let mut i: usize = 0;
    while i < n
        invariant
            i <= n,
            n == times@.len(),
            forall|i0: int| 0 < i0 < times@.len() ==> times@[i0 - 1] <= #[trigger] times@[i0],
            forall|k: int|
                0 <= k < r@.len() ==> 0 <= #[trigger] r@[k] < i && is_batch_start(
                    times@,
                    window,
                    r@[k] as int,
                ),
            forall|i0: int|
                0 <= i0 < i && is_batch_start(times@, window, i0) ==> exists|k: int|
                    0 <= k < r@.len() && r@[k] == i0,
            forall|k: int| 0 < k < r@.len() ==> r@[k - 1] < #[trigger] r@[k],
        decreases n - i,
    {
        let ghost r0 = r@;
        let start = i == 0 || times[i] - times[i - 1] > window;
        if start {
            r.push(i);
        }
        proof {
            assert forall|i0: int|
                0 <= i0 < i + 1 && is_batch_start(times@, window, i0) implies exists|k: int|
                0 <= k < r@.len() && r@[k] == i0 by {
                if i0 < i {
                    let k = choose|k: int| 0 <= k < r0.len() && r0[k] == i0;
                    assert(r@[k] == i0);
                } else {
                    assert(start);
                    assert(r@[r@.len() - 1] == i0);
                }
            }
        }
        i = i + 1;
    }
    r
}

} // verus!
