//! The change watcher: which file-system events it ignores, which
//! directories it watches, and how it debounces a burst of changes into a
//! single notification.

use vstd::prelude::*;

use crate::store::{joined, join_path, opt_view};
use crate::text::strs;

verus! {

/// What `Path::file_name` gives for a path (as text), when it gives a name.
pub uninterp spec fn path_file_name(p: Seq<char>) -> Option<Seq<char>>;

/// Calls `Path::file_name` on the path and takes the name as text.
#[verifier::external_body]
fn file_name(p: &str) -> (r: Option<String>)
    ensures
        opt_view(r) == path_file_name(p@),
{
    std::path::Path::new(p).file_name().and_then(|n| n.to_str()).map(|n| n.to_string())
}

/// Whether a name is one of the temporary files written before a rename.
pub open spec fn is_tmp_name(n: Seq<char>) -> bool {
    n.len() >= 5 && n.take(5) == ".tmp_"@
}

/// An event is ignored when every path it touches is a temporary file.
pub fn is_filtered(paths: &Vec<String>) -> (r: bool)
    ensures
        r == forall|i: int|
            0 <= i < paths@.len() ==> (#[trigger] path_file_name(paths@[i]@) matches Some(n) && is_tmp_name(n)),
{
    proof {
        reveal_strlit(".tmp_");
    }
    let prefix = crate::text::chars_of(".tmp_");
    let mut i: usize = 0;
    while i < paths.len()
        invariant
            0 <= i <= paths.len(),
            prefix@ == ".tmp_"@,
            prefix@.len() == 5,
            forall|j: int| 0 <= j < i ==> (#[trigger] path_file_name(paths@[j]@) matches Some(n) && is_tmp_name(n)),
        decreases paths.len() - i,
    {
        let ok = match file_name(paths[i].as_str()) {
            Some(n) => {
                let cs = crate::text::chars_of(n.as_str());
                if cs.len() >= 5 {
                    let head = crate::text::subvec(&cs, 0, 5);
                    let r = crate::text::eq_chars(&head, &prefix);
                    assert(head@ =~= cs@.take(5));
                    r
                } else {
                    false
                }
            },
            None => false,
        };
        if !ok {
            return false;
        }
        i = i + 1;
    }
    true
}

/// The first of a directory and its ancestors (given nearest first) that
/// holds a `.gest` directory, as the path of that `.gest` directory.
pub fn find_gest_dir_upward(ancestors: &Vec<String>, has_gest: &Vec<bool>) -> (r: Option<String>)
    requires
        ancestors.len() == has_gest.len(),
    ensures
        match r {
            Some(p) => exists|i: int|
                0 <= i < ancestors@.len() && has_gest@[i] && p@ == joined(ancestors@[i]@, ".gest"@) && forall|j: int|
                    0 <= j < i ==> !#[trigger] has_gest@[j],
            None => forall|j: int| 0 <= j < has_gest@.len() ==> !#[trigger] has_gest@[j],
        },
{
    let mut i: usize = 0;
    while i < ancestors.len()
        invariant
            0 <= i <= ancestors.len(),
            ancestors.len() == has_gest.len(),
            forall|j: int| 0 <= j < i ==> !#[trigger] has_gest@[j],
        decreases ancestors.len() - i,
    {
        if has_gest[i] {
            return Some(join_path(ancestors[i].as_str(), ".gest"));
        }
        i = i + 1;
    }
    None
}

/// The directories the watcher follows: each entity root (tasks, then
/// artifacts), each followed by its `resolved` subdirectory when that is a
/// directory.
pub fn watched_dirs(task_dir: &str, artifact_dir: &str, task_resolved_is_dir: bool, artifact_resolved_is_dir: bool) -> (r: Vec<String>)
    ensures
        strs(r@) == seq![task_dir@] + (if task_resolved_is_dir {
            seq![joined(task_dir@, "resolved"@)]
        } else {
            Seq::empty()
        }) + seq![artifact_dir@] + (if artifact_resolved_is_dir {
            seq![joined(artifact_dir@, "resolved"@)]
        } else {
            Seq::empty()
        }),
{
    let mut dirs: Vec<String> = Vec::new();
    dirs.push(task_dir.to_string());
    if task_resolved_is_dir {
        dirs.push(join_path(task_dir, "resolved"));
    }
    dirs.push(artifact_dir.to_string());
    if artifact_resolved_is_dir {
        dirs.push(join_path(artifact_dir, "resolved"));
    }
    assert(strs(dirs@) =~= seq![task_dir@] + (if task_resolved_is_dir {
        seq![joined(task_dir@, "resolved"@)]
    } else {
        Seq::empty()
    }) + seq![artifact_dir@] + (if artifact_resolved_is_dir {
        seq![joined(artifact_dir@, "resolved"@)]
    } else {
        Seq::empty()
    }));
    dirs
}

/// Where the change watcher is in its debounce cycle.
#[derive(Clone, Copy, Debug, PartialEq, Eq, Structural)]
pub enum DebounceState {
    /// Waiting for the first change.
    Idle,
    /// A change arrived; the debounce window is running.
    Waiting,
    /// The event channel closed; the watcher has exited.
    Stopped,
}

/// What the watcher observes.
#[derive(Clone, Copy, Debug, PartialEq, Eq, Structural)]
pub enum WatchEvent {
    /// A file-system event arrived; `filtered` when it only touches
    /// temporary files (see [`is_filtered`]).
    Changed { filtered: bool },
    /// The debounce window has elapsed.
    WindowElapsed,
    /// The event channel closed.
    Closed,
}

/// What the watcher does next.
#[derive(Clone, Copy, Debug, PartialEq, Eq, Structural)]
pub enum WatchAction {
    /// Nothing: keep waiting.
    Nothing,
    /// Start the debounce window.
    StartWindow,
    /// Drop the changes that queued up during the window and send one
    /// notification.
    Notify,
    /// Stop watching.
    Exit,
}

/// One step of the debounce loop. A relevant change while idle starts the
/// window; changes during the window are absorbed; the window's end sends a
/// single notification; a closed channel while idle ends the loop (during a
/// window the notification still goes out first).
pub open spec fn step(s: DebounceState, e: WatchEvent) -> (DebounceState, WatchAction) {
    match s {
        DebounceState::Idle => match e {
            WatchEvent::Changed { filtered } => if filtered {
                (DebounceState::Idle, WatchAction::Nothing)
            } else {
                (DebounceState::Waiting, WatchAction::StartWindow)
            },
            WatchEvent::WindowElapsed => (DebounceState::Idle, WatchAction::Nothing),
            WatchEvent::Closed => (DebounceState::Stopped, WatchAction::Exit),
        },
        DebounceState::Waiting => match e {
            WatchEvent::WindowElapsed => (DebounceState::Idle, WatchAction::Notify),
            _ => (DebounceState::Waiting, WatchAction::Nothing),
        },
        DebounceState::Stopped => (DebounceState::Stopped, WatchAction::Nothing),
    }
}

/// The next state and action of the debounce loop.
pub fn debounce_step(s: DebounceState, e: WatchEvent) -> (r: (DebounceState, WatchAction))
    ensures
        r == step(s, e),
{
    match s {
        DebounceState::Idle => match e {
            WatchEvent::Changed { filtered } => if filtered {
                (DebounceState::Idle, WatchAction::Nothing)
            } else {
                (DebounceState::Waiting, WatchAction::StartWindow)
            },
            WatchEvent::WindowElapsed => (DebounceState::Idle, WatchAction::Nothing),
            WatchEvent::Closed => (DebounceState::Stopped, WatchAction::Exit),
        },
        DebounceState::Waiting => match e {
            WatchEvent::WindowElapsed => (DebounceState::Idle, WatchAction::Notify),
            _ => (DebounceState::Waiting, WatchAction::Nothing),
        },
        DebounceState::Stopped => (DebounceState::Stopped, WatchAction::Nothing),
    }
}

/// The state reached and the actions taken over a sequence of events.
pub open spec fn run(s: DebounceState, events: Seq<WatchEvent>) -> (DebounceState, Seq<WatchAction>)
    decreases events.len(),
{
    if events.len() == 0 {
        (s, Seq::empty())
    } else {
        let (s1, acts) = run(s, events.drop_last());
        let (s2, a) = step(s1, events.last());
        (s2, acts.push(a))
    }
}

/// Whether an action is a notification.
pub open spec fn is_notify(a: WatchAction) -> bool {
    a is Notify
}

/// How many notifications a sequence of actions sends.
pub open spec fn notifications(acts: Seq<WatchAction>) -> nat {
    acts.filter(|a: WatchAction| is_notify(a)).len()
}

/// A burst of file-system events, each relevant or filtered.
pub open spec fn burst(filtered: Seq<bool>) -> Seq<WatchEvent> {
    filtered.map_values(|f: bool| WatchEvent::Changed { filtered: f })
}

/// Within a burst the watcher sends nothing, and it is waiting exactly when
/// some change was relevant.
proof fn lemma_burst(filtered: Seq<bool>)
    ensures
        run(DebounceState::Idle, burst(filtered)).0 == if filtered.contains(false) {
            DebounceState::Waiting
        } else {
            DebounceState::Idle
        },
        notifications(run(DebounceState::Idle, burst(filtered)).1) == 0,
    decreases filtered.len(),
{
    let evs = burst(filtered);
    if filtered.len() > 0 {
        let init = filtered.drop_last();
        assert(evs.drop_last() =~= burst(init));
        lemma_burst(init);
        let acts = run(DebounceState::Idle, burst(init)).1;
        let a = step(run(DebounceState::Idle, burst(init)).0, evs.last()).1;
        acts.lemma_filter_push(a, |x: WatchAction| is_notify(x));
        assert(filtered.contains(false) == (init.contains(false) || filtered.last() == false)) by {
            if filtered.contains(false) {
                let k = choose|k: int| 0 <= k < filtered.len() && filtered[k] == false;
                if k < filtered.len() - 1 {
                    assert(init[k] == false);
                }
            }
            if init.contains(false) {
                let k = choose|k: int| 0 <= k < init.len() && init[k] == false;
                assert(filtered[k] == false);
            }
        }
    } else {
        assert(!filtered.contains(false));
    }
}

/// A burst of changes within one debounce window collapses into a single
/// notification: from idle, any run of file-system events followed by the
/// end of the window notifies exactly once if some event was relevant, not
/// at all if every one was filtered, and leaves the watcher idle.
pub proof fn law_burst_notifies_once(filtered: Seq<bool>)
    ensures
        ({
            let (s, acts) = run(DebounceState::Idle, burst(filtered).push(WatchEvent::WindowElapsed));
            &&& s == DebounceState::Idle
            &&& notifications(acts) == if filtered.contains(false) {
                1nat
            } else {
                0nat
            }
        }),
{
    lemma_burst(filtered);
    let evs = burst(filtered).push(WatchEvent::WindowElapsed);
    assert(evs.drop_last() =~= burst(filtered));
    let acts = run(DebounceState::Idle, burst(filtered)).1;
    let a = step(run(DebounceState::Idle, burst(filtered)).0, WatchEvent::WindowElapsed).1;
    acts.lemma_filter_push(a, |x: WatchAction| is_notify(x));
}

} // verus!
