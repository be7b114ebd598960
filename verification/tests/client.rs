use hashtable_shm::client::report;
use hashtable_shm::client::request_for;
use hashtable_shm::client::Args;
use hashtable_shm::client::ClientError;
use hashtable_shm::client::Operation;
use hashtable_shm::client::Report;
use hashtable_shm::shm_ipc::Response;

fn words(line: &[&str]) -> Vec<String> {
    line.iter().map(|w| w.to_string()).collect()
}

#[test]
fn parses_a_script() {
    let parsed = Args::parse(&words(&[
        "client", "3", "insert", "24", "54", "read", "24", "delete", "24",
    ]))
    .expect("the line is well formed");
    assert_eq!(parsed.client_id, "hashtable-3");
    assert_eq!(parsed.operations.len(), 3);
    assert!(matches!(parsed.operations[0], Operation::Insert { key: 24, value: 54 }));
    assert!(matches!(parsed.operations[1], Operation::Read { key: 24 }));
    assert!(matches!(parsed.operations[2], Operation::Delete { key: 24 }));
}

#[test]
fn parses_a_line_without_commands() {
    let parsed = Args::parse(&words(&["client", "seven"])).expect("the line is well formed");
    assert_eq!(parsed.client_id, "hashtable-seven");
    assert!(parsed.operations.is_empty());
}

#[test]
fn missing_client_id() {
    assert!(matches!(Args::parse(&words(&["client"])), Err(ClientError::ArgumentsMissing)));
    assert!(matches!(Args::parse(&words(&[])), Err(ClientError::ArgumentsMissing)));
}

#[test]
fn missing_key_or_value() {
    assert!(matches!(
        Args::parse(&words(&["client", "0", "read"])),
        Err(ClientError::ArgumentsMissing)
    ));
    assert!(matches!(
        Args::parse(&words(&["client", "0", "insert", "1"])),
        Err(ClientError::ArgumentsMissing)
    ));
    assert!(matches!(
        Args::parse(&words(&["client", "0", "read", "1", "delete"])),
        Err(ClientError::ArgumentsMissing)
    ));
}

#[test]
fn unexpected_token() {
    assert!(matches!(
        Args::parse(&words(&["client", "0", "read", "1", "update", "2"])),
        Err(ClientError::UnexpectedToken(token)) if token == "update"
    ));
}

#[test]
fn bad_number() {
    assert!(matches!(
        Args::parse(&words(&["client", "0", "read", "one"])),
        Err(ClientError::ParserError(_))
    ));
    assert!(matches!(
        Args::parse(&words(&["client", "0", "insert", "1", "-2"])),
        Err(ClientError::ParserError(_))
    ));
    assert!(matches!(
        Args::parse(&words(&["client", "0", "insert", "4294967296", "2"])),
        Err(ClientError::ParserError(_))
    ));
    // The key is read before the value is looked for.
    assert!(matches!(
        Args::parse(&words(&["client", "0", "insert", "x"])),
        Err(ClientError::ParserError(_))
    ));
}

#[test]
fn largest_key_parses() {
    let parsed = Args::parse(&words(&["client", "0", "read", "4294967295"]))
        .expect("the line is well formed");
    assert!(matches!(parsed.operations[0], Operation::Read { key: u32::MAX }));
}

#[test]
fn requests_carry_the_command() {
    let r = request_for(&Operation::Insert { key: 2, value: 5 }, 8);
    assert_eq!(r.operation, hashtable_shm::shm_ipc::Operation::Insert);
    assert_eq!((r.key, r.val, r.counter), (2, 5, 8));
    let r = request_for(&Operation::Read { key: 2 }, 9);
    assert_eq!(r.operation, hashtable_shm::shm_ipc::Operation::Read);
    assert_eq!((r.key, r.val, r.counter), (2, 0, 9));
    let r = request_for(&Operation::Delete { key: 3 }, 10);
    assert_eq!(r.operation, hashtable_shm::shm_ipc::Operation::Delete);
    assert_eq!((r.key, r.val, r.counter), (3, 0, 10));
}

#[test]
fn reports() {
    let mut response = Response {
        operation: hashtable_shm::shm_ipc::Operation::Read,
        error: false,
        key: 24u32,
        val: 54u32,
        counter: 1,
    };
    assert_eq!(report(&response), Report::Value { key: 24, val: 54 });
    response.error = true;
    assert_eq!(report(&response), Report::Failed);
    response.error = false;
    response.operation = hashtable_shm::shm_ipc::Operation::Insert;
    assert_eq!(report(&response), Report::Silent);
    response.operation = hashtable_shm::shm_ipc::Operation::Delete;
    assert_eq!(report(&response), Report::Silent);
}

#[test]
fn numbers_may_carry_a_plus_sign_and_leading_zeros() {
    let parsed = Args::parse(&words(&["client", "0", "insert", "+7", "007"]))
        .expect("the line is well formed");
    assert!(matches!(parsed.operations[0], Operation::Insert { key: 7, value: 7 }));
    assert!(matches!(
        Args::parse(&words(&["client", "0", "read", "+"])),
        Err(ClientError::ParserError(_))
    ));
    assert!(matches!(
        Args::parse(&words(&["client", "0", "read", ""])),
        Err(ClientError::ParserError(_))
    ));
    assert!(matches!(
        Args::parse(&words(&["client", "0", "read", " 1"])),
        Err(ClientError::ParserError(_))
    ));
    assert!(matches!(
        Args::parse(&words(&["client", "0", "read", "1_0"])),
        Err(ClientError::ParserError(_))
    ));
}
