use solace_core::messaging::ACPMessage;
use solace_core::messaging::MessagePriority;
use solace_core::messaging::MessageQueue;
use solace_core::messaging::MessageType;
use solace_core::messaging::PriorityMessage;

#[test]
fn test_message_creation() {
    let message = ACPMessage::new(
        MessageType::Heartbeat,
        "node1".to_string(),
        None,
        vec![1, 2, 3],
        0,
    );

    assert!(matches!(message.message_type, MessageType::Heartbeat));
    assert_eq!(message.from, "node1");
    assert_eq!(message.payload, vec![1, 2, 3]);
    assert!(!message.is_signed());
}

#[test]
fn test_message_headers() {
    let mut message = ACPMessage::new(
        MessageType::Custom("test".to_string()),
        "node1".to_string(),
        None,
        Vec::new(),
        0,
    );

    message.add_header("key1".to_string(), "value1".to_string());
    message.add_header("key2".to_string(), "value2".to_string());

    assert_eq!(message.get_header("key1"), Some(&"value1".to_string()));
    assert_eq!(message.get_header("key2"), Some(&"value2".to_string()));
    assert_eq!(message.get_header("key3"), None);
}

#[test]
fn test_header_replacement() {
    let mut message = ACPMessage::new(
        MessageType::Heartbeat,
        "node1".to_string(),
        None,
        Vec::new(),
        0,
    );
    message.add_header("k".to_string(), "old".to_string());
    message.add_header("k".to_string(), "new".to_string());
    assert_eq!(message.get_header("k"), Some(&"new".to_string()));
    assert_eq!(message.headers.len(), 1);
}

#[test]
fn test_message_queue() {
    let mut queue = MessageQueue::new();

    let msg1 = PriorityMessage::new(
        ACPMessage::new(MessageType::Heartbeat, "node1".to_string(), None, Vec::new(), 0),
        MessagePriority::Low,
    );

    let msg2 = PriorityMessage::new(
        ACPMessage::new(
            MessageType::TransactionRequest,
            "node2".to_string(),
            None,
            Vec::new(),
            0,
        ),
        MessagePriority::High,
    );

    queue.push(msg1).unwrap();
    queue.push(msg2).unwrap();

    assert_eq!(queue.len(), 2);

    let popped = queue.pop().unwrap();
    assert_eq!(popped.priority, MessagePriority::High);
    assert_eq!(queue.len(), 1);
}

#[test]
fn test_queue_tie_break_is_arrival_order() {
    let mut queue = MessageQueue::new();
    for name in ["first", "second"] {
        queue
            .push(PriorityMessage::new(
                ACPMessage::new(MessageType::Heartbeat, name.to_string(), None, Vec::new(), 0),
                MessagePriority::Normal,
            ))
            .unwrap();
    }
    let popped = queue.pop().unwrap();
    assert_eq!(popped.message.from, "first");
    assert!(!queue.is_empty());
    assert_eq!(queue.pop().unwrap().message.from, "second");
    assert!(queue.pop().is_none());
}

#[test]
fn test_message_ttl_expiry() {
    let mut message = ACPMessage::new(
        MessageType::Heartbeat,
        "node1".to_string(),
        None,
        Vec::new(),
        1000,
    );

    // Without a ttl header the message never expires.
    assert!(!message.is_expired(u64::MAX));

    // A one-second ttl expires just after creation time plus 1000 ms.
    message.add_header("ttl".to_string(), "1".to_string());
    assert!(!message.is_expired(2000));
    assert!(message.is_expired(2001));

    // A malformed ttl means no expiry.
    message.add_header("ttl".to_string(), "soon".to_string());
    assert!(!message.is_expired(u64::MAX));
}

#[test]
fn test_retry_budget() {
    let mut pm = PriorityMessage::new(
        ACPMessage::new(MessageType::Heartbeat, "n".to_string(), None, Vec::new(), 0),
        MessagePriority::Normal,
    );
    assert!(pm.can_retry());
    pm.increment_retry();
    pm.increment_retry();
    pm.increment_retry();
    assert!(!pm.can_retry());
}

#[test]
fn test_create_response() {
    let mut request = ACPMessage::new(
        MessageType::TransactionRequest,
        "alice".to_string(),
        Some("bob".to_string()),
        vec![1],
        10,
    );
    request.add_header("x".to_string(), "y".to_string());
    let response = request.create_response(MessageType::TransactionResponse, vec![2], 20);
    assert_eq!(response.from, "bob");
    assert_eq!(response.to, Some("alice".to_string()));
    assert_eq!(response.get_header("correlation_id"), Some(&request.id));
}
