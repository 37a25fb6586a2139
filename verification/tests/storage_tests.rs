use tlq::storage::BaseMemoryStorage;
use tlq::types::{Message, MessageState};

fn setup_storage() -> BaseMemoryStorage {
    let mut storage = BaseMemoryStorage::new();
    storage.add(Message::new("Hello World".to_string())).unwrap();
    storage
        .add(Message::new("Hello Solar System".to_string()))
        .unwrap();
    storage.add(Message::new("Hello Universe".to_string())).unwrap();
    storage
}

#[test]
fn test_message_new() {
    let msg = Message::new("Hello world".to_string());
    assert_eq!(msg.body, "Hello world");
    assert!(matches!(msg.state, MessageState::Ready));
    assert_eq!(msg.retry_count, 0);
}

#[test]
fn test_new_base_memory_storage() {
    let storage = BaseMemoryStorage::new();
    assert_eq!(storage.queue_len(), 0);
    assert_eq!(storage.processing_len(), 0);
}

#[test]
fn test_base_memory_storage_add() {
    let mut storage = setup_storage();

    let msg = Message::new("Hello Serbia".to_string());
    storage.add(msg).unwrap();
    let msg = Message::new("Hello Balkan".to_string());
    storage.add(msg).unwrap();

    assert_eq!(storage.queue_len(), 5);
}

#[test]
fn test_base_memory_storage_get() {
    let mut storage = setup_storage();

    let messages = storage.get(2).unwrap();
    assert_eq!(messages.len(), 2);
    for message in &messages {
        assert_eq!(message.state, MessageState::Processing);
    }
    assert_eq!(storage.queue_len(), 1);
    assert_eq!(storage.processing_len(), 2);
}

#[test]
fn test_base_memory_storage_get_more_than_available() {
    let mut storage = setup_storage();

    let messages = storage.get(5).unwrap();
    assert_eq!(messages.len(), 3);
    assert_eq!(storage.queue_len(), 0);
    assert_eq!(storage.processing_len(), 3);
}

#[test]
fn test_base_memory_storage_delete() {
    let mut storage = setup_storage();

    let messages = storage.get(2).unwrap();
    storage
        .delete(vec![messages[0].id, messages[1].id])
        .unwrap();
    assert_eq!(storage.processing_len(), 0);
}

#[test]
fn test_base_memory_storage_delete_non_existent() {
    let mut storage = setup_storage();

    let _messages = storage.get(2).unwrap();
    // a version-7 identifier never has all bits set, so this id is absent
    storage.delete(vec![u128::MAX]).unwrap();
    assert_eq!(storage.processing_len(), 2);
}

#[test]
fn test_base_memory_storage_delete_duplicate() {
    let mut storage = setup_storage();

    let messages = storage.get(2).unwrap();
    storage
        .delete(vec![messages[0].id, messages[0].id])
        .unwrap();
    assert_eq!(storage.processing_len(), 1);
}

#[test]
fn test_base_memory_storage_purge() {
    let mut storage = setup_storage();
    let _messages = storage.get(1).unwrap();

    storage.purge().unwrap();
    assert_eq!(storage.queue_len(), 0);
    assert_eq!(storage.processing_len(), 0);
}

#[test]
fn test_base_memory_storage_retry() {
    let mut storage = setup_storage();
    let messages = storage.get(2).unwrap();
    storage.retry(vec![messages[0].id]).unwrap();

    assert_eq!(storage.queue_len(), 2);
    assert_eq!(storage.processing_len(), 1);
}
