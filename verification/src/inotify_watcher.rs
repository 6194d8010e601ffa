//! Which changes in a watched directory tell that a board's state changed,
//! and in which order they are handed out.
use crate::path::{file_name, file_name_of};
use crate::text::{owned, same};
use vstd::prelude::*;

verus! {

/// What happened to the paths of a file event.
#[derive(Clone, Copy, Debug, PartialEq, Eq, Structural)]
pub enum FileEventKind {
    Any,
    Access,
    Create,
    Modify,
    Remove,
    Other,
}

/// A file event: what happened, and to which paths.
#[derive(Clone, Debug)]
pub struct FileEvent {
    pub kind: FileEventKind,
    pub paths: Vec<String>,
}

/// What a watcher tells.
#[derive(Clone, Copy, Debug, PartialEq, Eq, Structural)]
pub enum WatchKind {
    /// The state of the board changed.
    StateChanged,
}

/// That a board's state changed, and in which file.
#[derive(Clone, Debug)]
pub struct WatchEvent {
    pub kind: WatchKind,
    pub path: String,
}

/// Whether an event of this kind changes a file.
pub open spec fn is_change(kind: FileEventKind) -> bool {
    kind == FileEventKind::Create || kind == FileEventKind::Modify || kind == FileEventKind::Remove
        || kind == FileEventKind::Any
}

/// Whether a path is that of a state file.
pub open spec fn is_state_file(path: Seq<char>) -> bool {
    file_name_of(path) == Some("target-state"@)
}

/// The first path from `i` on that is that of a state file.
pub open spec fn state_path_from(paths: Seq<String>, i: int) -> Option<Seq<char>>
    decreases paths.len() - i,
{
    if i < 0 || i >= paths.len() {
        None
    } else if is_state_file(paths[i]@) {
        Some(paths[i]@)
    } else {
        state_path_from(paths, i + 1)
    }
}

/// The state file that an event changes, if it changes one.
pub open spec fn changed_state(event: FileEvent) -> Option<Seq<char>> {
    if is_change(event.kind) {
        state_path_from(event.paths@, 0)
    } else {
        None
    }
}

/// What an event tells of a board's state, if it tells anything: the first of
/// its paths that is a state file counts.
pub fn classify_event(event: &FileEvent) -> (r: Option<WatchEvent>)
    ensures
        match r {
            Some(w) => w.kind == WatchKind::StateChanged && changed_state(*event) == Some(w.path@),
            None => changed_state(*event) is None,
        },
{
    let changes = match event.kind {
        FileEventKind::Create => true,
        FileEventKind::Modify => true,
        FileEventKind::Remove => true,
        FileEventKind::Any => true,
        FileEventKind::Access => false,
        FileEventKind::Other => false,
    };
    if !changes {
        return None;
    }
    let mut i: usize = 0;
    while i < event.paths.len()
        invariant
            i <= event.paths@.len(),
            is_change(event.kind),
            state_path_from(event.paths@, i as int) == state_path_from(event.paths@, 0),
        decreases event.paths@.len() - i,
    {
        if let Some(name) = file_name(event.paths[i].as_str()) {
            if same(name.as_str(), "target-state") {
                return Some(
                    WatchEvent {
                        kind: WatchKind::StateChanged,
                        path: owned(event.paths[i].as_str()),
                    },
                );
            }
        }
        i += 1;
    }
    None
}

/// What the queue of events has to give at this moment.
#[derive(Clone, Copy, Debug, PartialEq, Eq, Structural)]
pub enum QueueState {
    /// An event.
    Ready,
    /// Nothing yet.
    Empty,
    /// Nothing any more.
    Closed,
}

/// Where the next event is taken from.
#[derive(Clone, Copy, Debug, PartialEq, Eq, Structural)]
pub enum NextEvent {
    /// From the queue.
    Queued,
    /// The one that found the queue full.
    Overflowed,
    /// None yet: wait for the queue.
    Wait,
    /// There will be none.
    End,
}

/// Where the next event is taken from.
pub open spec fn taken_from(queue: QueueState, overflow: bool) -> NextEvent {
    match queue {
        QueueState::Ready => NextEvent::Queued,
        QueueState::Empty => if overflow {
            NextEvent::Overflowed
        } else {
            NextEvent::Wait
        },
        QueueState::Closed => if overflow {
            NextEvent::Overflowed
        } else {
            NextEvent::End
        },
    }
}

/// Where the next event is taken from: what is queued comes first, then what
/// found the queue full, so that the last change is never lost.
pub fn next_event(queue: QueueState, overflow: bool) -> (r: NextEvent)
    ensures
        r == taken_from(queue, overflow),
        r == NextEvent::Queued <==> queue == QueueState::Ready,
        r == NextEvent::Overflowed <==> queue != QueueState::Ready && overflow,
        r == NextEvent::Wait <==> queue == QueueState::Empty && !overflow,
        r == NextEvent::End <==> queue == QueueState::Closed && !overflow,
{
    match queue {
        QueueState::Ready => NextEvent::Queued,
        QueueState::Empty => if overflow {
            NextEvent::Overflowed
        } else {
            NextEvent::Wait
        },
        QueueState::Closed => if overflow {
            NextEvent::Overflowed
        } else {
            NextEvent::End
        },
    }
}

} // verus!
