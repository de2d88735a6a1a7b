use densky::notifier::{classify_delivery, encode_batch, kind_str, DeliveryDisposition, DeliveryError};
use densky::watch::{WatchEvent, WatchKind};

fn ev(kind: WatchKind, path: &str) -> WatchEvent {
    WatchEvent { kind, path: String::from(path) }
}

#[test]
fn encodes_one_event() {
    let batch = vec![ev(WatchKind::Modify, "/r/x.ts")];
    assert_eq!(encode_batch(&batch), "[[\"modify\",\"/r/x.ts\"]]");
}

#[test]
fn encodes_batch_in_order_with_commas() {
    let batch = vec![
        ev(WatchKind::Create, "/r/a.ts"),
        ev(WatchKind::Remove, "/r/b.ts"),
        ev(WatchKind::Modify, "/r/c.ts"),
    ];
    assert_eq!(
        encode_batch(&batch),
        "[[\"create\",\"/r/a.ts\"],[\"remove\",\"/r/b.ts\"],[\"modify\",\"/r/c.ts\"]]"
    );
}

#[test]
fn encodes_empty_batch_as_empty_array() {
    let batch: Vec<WatchEvent> = vec![];
    assert_eq!(encode_batch(&batch), "[]");
}

#[test]
fn kind_words_match_the_wire_format() {
    assert_eq!(kind_str(WatchKind::Create), "create");
    assert_eq!(kind_str(WatchKind::Remove), "remove");
    assert_eq!(kind_str(WatchKind::Modify), "modify");
}

#[test]
fn delivery_failures_are_never_fatal() {
    assert_eq!(classify_delivery(DeliveryError::StatusRejected), DeliveryDisposition::Ignore);
    assert_eq!(classify_delivery(DeliveryError::TransportFailed), DeliveryDisposition::Report);
}
