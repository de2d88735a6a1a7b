//! LiveReloadNotifier: turning a change batch into the JSON body that is
//! pushed to the running server, and the fire-and-forget delivery policy.
//! The network call itself lives outside the library; what is verified here
//! is the exact text of the body and the rule that no delivery failure is
//! ever fatal.

use vstd::prelude::*;
use vstd::string::StringExecFns;
use crate::watch::WatchEvent;
use crate::watch::WatchKind;

verus! {

/// The wire word for one event kind.
pub open spec fn kind_label(k: WatchKind) -> Seq<char> {
    match k {
        WatchKind::Create => "create"@,
        WatchKind::Remove => "remove"@,
        WatchKind::Modify => "modify"@,
    }
}

/// One batch element: a 2-element JSON array `["kind","path"]`.
pub open spec fn entry_json(e: (WatchKind, Seq<char>)) -> Seq<char> {
    "[\""@ + kind_label(e.0) + "\",\""@ + e.1 + "\"]"@
}

/// The first `i` elements, comma-separated.
pub open spec fn entries_json_upto(evs: Seq<(WatchKind, Seq<char>)>, i: int) -> Seq<char>
    decreases i,
{
    if i <= 0 || i > evs.len() {
        Seq::empty()
    } else if i == 1 {
        entry_json(evs[0])
    } else {
        entries_json_upto(evs, i - 1) + ","@ + entry_json(evs[i - 1])
    }
}

/// The whole body: a JSON array of 2-element arrays.
pub open spec fn batch_json(evs: Seq<(WatchKind, Seq<char>)>) -> Seq<char> {
    "["@ + entries_json_upto(evs, evs.len() as int) + "]"@
}

/// The (kind, path) pairs a vector of events stands for, in order.
pub open spec fn views_of(evs: Seq<WatchEvent>) -> Seq<(WatchKind, Seq<char>)> {
    evs.map_values(|e: WatchEvent| e@)
}

/// The wire word for one event kind.
pub fn kind_str(k: WatchKind) -> (r: &'static str)
    ensures
        r@ == kind_label(k),
{
    match k {
        WatchKind::Create => "create",
        WatchKind::Remove => "remove",
        WatchKind::Modify => "modify",
    }
}

/// Serializes a batch of events into the JSON body delivered to the
/// server's live-reload endpoint: `[["kind","path"],...]`.
pub fn encode_batch(events: &Vec<WatchEvent>) -> (s: String)
    ensures
        s@ == batch_json(views_of(events@)),
{
    let ghost evs = views_of(events@);
    let mut s = String::from_str("[");
    let mut i: usize = 0;
    while i < events.len()
        invariant
            evs == views_of(events@),
            evs.len() == events@.len(),
            0 <= i <= events@.len(),
            s@ =~= "["@ + entries_json_upto(evs, i as int),
        decreases events@.len() - i,
    {
        if i > 0 {
            s.append(",");
        }
        s.append("[\"");
        let ev = &events[i];
        s.append(kind_str(ev.kind));
        s.append("\",\"");
        s.append(ev.path.as_str());
        s.append("\"]");
        proof {
            assert(evs[i as int] == events@[i as int]@);
            assert(entry_json(evs[i as int]) == "[\""@ + kind_label(events@[i as int].kind)
                + "\",\""@ + events@[i as int].path@ + "\"]"@);
            if i == 0 {
                assert(entries_json_upto(evs, 1) == entry_json(evs[0]));
            } else {
                assert(entries_json_upto(evs, i as int + 1) == entries_json_upto(evs, i as int)
                    + ","@ + entry_json(evs[i as int]));
            }
            assert(s@ =~= "["@ + entries_json_upto(evs, i as int + 1));
        }
        i += 1;
    }
    s.append("]");
    proof {
        assert(s@ =~= batch_json(evs));
    }
    s
}

/// How a delivery attempt can fail: the server answered with a rejecting
/// status, or the transport could not reach it at all.
#[derive(Clone, Copy, Debug, PartialEq, Eq)]
pub enum DeliveryError {
    StatusRejected,
    TransportFailed,
}

/// What to do about a failed delivery: swallow it or report it to the
/// operator.  There is deliberately no fatal outcome — live reload is
/// best-effort and never stops the dev loop.
#[derive(Clone, Copy, Debug, PartialEq, Eq)]
pub enum DeliveryDisposition {
    Ignore,
    Report,
}

/// The delivery policy: application-level rejections are discarded
/// silently, transport-level failures are reported for operator visibility.
pub open spec fn disposition_of(err: DeliveryError) -> DeliveryDisposition {
    match err {
        DeliveryError::StatusRejected => DeliveryDisposition::Ignore,
        DeliveryError::TransportFailed => DeliveryDisposition::Report,
    }
}

/// Decides what to do about a failed delivery, exactly as `disposition_of`
/// says.
pub fn classify_delivery(err: DeliveryError) -> (r: DeliveryDisposition)
    ensures
        r == disposition_of(err),
{
    match err {
        DeliveryError::StatusRejected => DeliveryDisposition::Ignore,
        DeliveryError::TransportFailed => DeliveryDisposition::Report,
    }
}

} // verus!
