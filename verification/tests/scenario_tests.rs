//! End-to-end scenarios at the service level, mirroring what a client of
//! the HTTP surface observes.

use tlq::services::MessageService;
use tlq::storage::BaseMemoryStorage;
use tlq::types::MessageState;

fn service() -> MessageService {
    MessageService::new(BaseMemoryStorage::new())
}

fn id_text(id: u128) -> String {
    uuid::Uuid::from_u128(id).to_string()
}

#[test]
fn test_roundtrip() {
    let mut svc = service();

    let m = svc.add("hello".to_string()).unwrap();
    assert_eq!(m.body, "hello");

    let fetched = svc.get(1).unwrap();
    assert_eq!(fetched.len(), 1);
    assert_eq!(fetched[0].id, m.id);
    assert_eq!(fetched[0].state, MessageState::Processing);

    svc.delete(vec![id_text(m.id)]).unwrap();

    let rest = svc.get(1).unwrap();
    assert!(rest.is_empty());
}

#[test]
fn test_fifo_of_five() {
    let mut svc = service();
    for i in 1..=5 {
        svc.add(format!("m{}", i)).unwrap();
    }

    let first = svc.get(3).unwrap();
    let bodies: Vec<&str> = first.iter().map(|m| m.body.as_str()).collect();
    assert_eq!(bodies, vec!["m1", "m2", "m3"]);

    let second = svc.get(10).unwrap();
    let bodies: Vec<&str> = second.iter().map(|m| m.body.as_str()).collect();
    assert_eq!(bodies, vec!["m4", "m5"]);
}

#[test]
fn test_retry_preserves_identity_and_increments_count() {
    let mut svc = service();
    svc.add("x".to_string()).unwrap();

    let fetched = svc.get(1).unwrap();
    assert_eq!(fetched.len(), 1);
    let m = &fetched[0];
    assert_eq!(m.retry_count, 0);

    svc.retry(vec![id_text(m.id)]).unwrap();

    let again = svc.get(1).unwrap();
    assert_eq!(again.len(), 1);
    assert_eq!(again[0].id, m.id);
    assert_eq!(again[0].retry_count, 1);
}

#[test]
fn test_size_limit() {
    let mut svc = MessageService::with_max_message_size(BaseMemoryStorage::new(), 65536);
    let body = "a".repeat(65537);
    let result = svc.add(body);
    assert_eq!(result.unwrap_err(), "Message body size is too large");
}

#[test]
fn test_invalid_ids() {
    let mut svc = service();
    let result = svc.delete(vec!["invalid-id1".to_string(), "invalid-id2".to_string()]);
    assert_eq!(
        result.unwrap_err(),
        "Invalid message IDs: [\"invalid-id1\", \"invalid-id2\"]"
    );
}

#[test]
fn test_empty_ids() {
    let mut svc = service();
    let result = svc.delete(vec![]);
    assert_eq!(result.unwrap_err(), "No message IDs provided");
}

#[test]
fn test_purge_while_processing() {
    let mut svc = service();
    for i in 1..=5 {
        svc.add(format!("message {}", i)).unwrap();
    }

    let fetched = svc.get(2).unwrap();
    assert_eq!(fetched.len(), 2);

    svc.purge().unwrap();

    // the purge cleared processing, so retrying the fetched ids is a no-op
    let ids: Vec<String> = fetched.iter().map(|m| id_text(m.id)).collect();
    svc.retry(ids).unwrap();

    let rest = svc.get(10).unwrap();
    assert!(rest.is_empty());
}

#[test]
fn test_delete_then_delete_again_is_noop() {
    let mut svc = service();
    svc.add("once".to_string()).unwrap();
    let fetched = svc.get(1).unwrap();
    let id = id_text(fetched[0].id);

    svc.delete(vec![id.clone(), id.clone()]).unwrap();
    svc.delete(vec![id]).unwrap();

    assert!(svc.get(10).unwrap().is_empty());
}

#[test]
fn test_get_zero_returns_empty() {
    let mut svc = service();
    svc.add("kept".to_string()).unwrap();
    let fetched = svc.get(0).unwrap();
    assert!(fetched.is_empty());
    let fetched = svc.get(1).unwrap();
    assert_eq!(fetched.len(), 1);
}

#[test]
fn test_retry_twice_increments_once() {
    let mut svc = service();
    svc.add("bounce".to_string()).unwrap();
    let fetched = svc.get(1).unwrap();
    let id = id_text(fetched[0].id);

    svc.retry(vec![id.clone(), id.clone()]).unwrap();

    let again = svc.get(1).unwrap();
    assert_eq!(again[0].retry_count, 1);
}

#[test]
fn test_fetched_message_not_refetched() {
    let mut svc = service();
    svc.add("only".to_string()).unwrap();
    assert_eq!(svc.get(1).unwrap().len(), 1);
    // the message now sits in processing, in neither location twice
    assert!(svc.get(1).unwrap().is_empty());
}

#[test]
fn test_unknown_uuid_is_tolerated() {
    let mut svc = service();
    svc.add("stays".to_string()).unwrap();
    let absent = uuid::Uuid::now_v7().to_string();
    svc.delete(vec![absent.clone()]).unwrap();
    svc.retry(vec![absent]).unwrap();
    assert_eq!(svc.get(10).unwrap().len(), 1);
}
