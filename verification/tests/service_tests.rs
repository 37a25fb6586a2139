use tlq::services::MessageService;
use tlq::storage::BaseMemoryStorage;

#[test]
fn test_message_size_within_limit_succeeds() {
    let store = BaseMemoryStorage::new();
    let mut service = MessageService::new(store);

    let body = "A".repeat(65536);
    let result = service.add(body);
    assert!(result.is_ok());
}

#[test]
fn test_message_size_over_limit_fails() {
    let store = BaseMemoryStorage::new();
    let mut service = MessageService::new(store);

    let body = "A".repeat(65536 + 1);
    let result = service.add(body);
    assert!(result.is_err());
    assert_eq!(result.unwrap_err(), "Message body size is too large");
}

#[test]
fn test_validate_ids() {
    let ids = vec![uuid::Uuid::now_v7().to_string()];
    let result = MessageService::validate_ids(&ids);
    assert!(result.is_ok());

    let ids = vec!["invalid".to_string()];
    let result = MessageService::validate_ids(&ids);
    assert!(result.is_err());
    assert_eq!(result.unwrap_err(), "Invalid message IDs: [\"invalid\"]");

    let ids = vec![];
    let result = MessageService::validate_ids(&ids);
    assert!(result.is_err());
    assert_eq!(result.unwrap_err(), "No message IDs provided");
}

#[test]
fn test_validate_ids_accepts_parsed_values() {
    let id = uuid::Uuid::now_v7();
    let ids = vec![id.to_string()];
    let parsed = MessageService::validate_ids(&ids).unwrap();
    assert_eq!(parsed, vec![id.as_u128()]);
}
