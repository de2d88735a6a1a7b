//! Watch events: the values a poll pass emits.  Events are plain values
//! with no lifecycle beyond one poll batch.

use vstd::prelude::*;

verus! {

/// The three kinds of change a poll pass can observe.  Directories use the
/// same kinds as files.
#[derive(Clone, Copy, Debug, PartialEq, Eq, Hash)]
pub enum WatchKind {
    Create,
    Remove,
    Modify,
}

/// One observed change: what happened and to which absolute path.
#[derive(Clone, Debug)]
pub struct WatchEvent {
    pub kind: WatchKind,
    pub path: String,
}

impl View for WatchEvent {
    type V = (WatchKind, Seq<char>);

    open spec fn view(&self) -> (WatchKind, Seq<char>) {
        (self.kind, self.path@)
    }
}

/// The set of (kind, path) pairs a vector of events stands for.
pub open spec fn events_set(evs: Seq<WatchEvent>) -> Set<(WatchKind, Seq<char>)> {
    Set::new(|e: (WatchKind, Seq<char>)| exists|i: int| 0 <= i < evs.len() && evs[i]@ == e)
}

} // verus!
