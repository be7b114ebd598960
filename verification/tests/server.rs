use hashtable_shm::hashtable::HashTable;
use hashtable_shm::server::respond_delete;
use hashtable_shm::server::respond_insert;
use hashtable_shm::server::respond_read;
use hashtable_shm::server::serve;
use hashtable_shm::shm_ipc::Operation;
use hashtable_shm::shm_ipc::Request;
use hashtable_shm::shm_ipc::Response;
use hashtable_shm::shm_ipc::ShmQueue;

fn request(operation: Operation, key: u32, val: u32, counter: usize) -> Request<u32, u32> {
    Request { operation, key, val, counter }
}

fn fields(response: &Response<u32, u32>) -> (Operation, bool, u32, u32, usize) {
    (response.operation, response.error, response.key, response.val, response.counter)
}

// Sends the requests through the queue pair one by one, as a single worker would serve them.
fn run(bucket_size: usize, requests: &[Request<u32, u32>]) -> Vec<Response<u32, u32>> {
    let mut table: HashTable<u32, u32> = HashTable::new(bucket_size).expect("could not create table");
    let mut queue: ShmQueue<u32, u32> = ShmQueue::new("hashtable-0", true);
    let mut responses = vec![];
    for r in requests {
        queue.request_put(r).expect("the request ring has room");
        let taken = queue.request_get().expect("a request waits");
        let response = serve(&mut table, &taken);
        queue.response_put(&response).expect("the response ring has room");
        responses.push(queue.response_get().expect("a response waits"));
    }
    responses
}

#[test]
fn duplicate_insert_scenario() {
    let responses = run(
        10,
        &[
            request(Operation::Insert, 24, 54, 0),
            request(Operation::Read, 24, 0, 1),
            request(Operation::Insert, 24, 62, 2),
            request(Operation::Read, 24, 0, 3),
        ],
    );
    assert_eq!(fields(&responses[0]), (Operation::Insert, false, 24, 54, 0));
    assert_eq!(fields(&responses[1]), (Operation::Read, false, 24, 54, 1));
    assert_eq!(fields(&responses[2]), (Operation::Insert, true, 24, 62, 2));
    assert_eq!(fields(&responses[3]), (Operation::Read, false, 24, 54, 3));
}

#[test]
fn single_bucket_scenario() {
    let responses = run(
        1,
        &[
            request(Operation::Insert, 1, 4, 0),
            request(Operation::Insert, 2, 5, 1),
            request(Operation::Insert, 3, 6, 2),
            request(Operation::Delete, 2, 0, 3),
            request(Operation::Read, 1, 0, 4),
            request(Operation::Read, 2, 0, 5),
            request(Operation::Read, 3, 0, 6),
        ],
    );
    assert_eq!(fields(&responses[3]), (Operation::Delete, false, 2, 0, 3));
    assert_eq!(fields(&responses[4]), (Operation::Read, false, 1, 4, 4));
    assert_eq!(fields(&responses[5]), (Operation::Read, true, 2, 0, 5));
    assert_eq!(fields(&responses[6]), (Operation::Read, false, 3, 6, 6));
}

#[test]
fn thousand_keys_scenario() {
    let mut requests = vec![];
    for key in 0..1000u32 {
        requests.push(request(Operation::Insert, key, key + 7, requests.len()));
    }
    for key in 0..1000u32 {
        requests.push(request(Operation::Read, key, 0, requests.len()));
    }
    let responses = run(10, &requests);
    for (at, response) in responses.iter().enumerate() {
        assert!(!response.error);
        assert_eq!(response.counter, at);
        assert_eq!(response.val, response.key + 7);
    }
}

#[test]
fn responses_echo_operation_key_and_counter() {
    let mut requests = vec![];
    for round in 0..300u32 {
        let operation = match round % 3 {
            0 => Operation::Insert,
            1 => Operation::Read,
            _ => Operation::Delete,
        };
        requests.push(request(operation, round % 17, round, 1000 + requests.len()));
    }
    let responses = run(3, &requests);
    for (r, response) in requests.iter().zip(responses.iter()) {
        assert_eq!(response.operation, r.operation);
        assert_eq!(response.key, r.key);
        assert_eq!(response.counter, r.counter);
    }
}

#[test]
fn delete_of_absent_key_sets_the_error_flag() {
    let responses = run(2, &[request(Operation::Delete, 8, 3, 11)]);
    assert_eq!(fields(&responses[0]), (Operation::Delete, true, 8, 0, 11));
}

#[test]
fn responses_from_outcomes() {
    let r = request(Operation::Read, 3, 9, 5);
    assert_eq!(fields(&respond_read(&r, Some(12))), (Operation::Read, false, 3, 12, 5));
    assert_eq!(fields(&respond_read(&r, None)), (Operation::Read, true, 3, 0, 5));
    assert_eq!(fields(&respond_insert(&r, true)), (Operation::Insert, false, 3, 9, 5));
    assert_eq!(fields(&respond_insert(&r, false)), (Operation::Insert, true, 3, 9, 5));
    assert_eq!(fields(&respond_delete(&r, true)), (Operation::Delete, false, 3, 0, 5));
    assert_eq!(fields(&respond_delete(&r, false)), (Operation::Delete, true, 3, 0, 5));
}
