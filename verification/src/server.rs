//! The server's dispatch rules: how a request is run against the table and
//! which response it is owed.

use crate::hashtable::add_state;
use crate::hashtable::delete_state;
use crate::hashtable::HashTable;
use crate::shm_ipc::Operation;
use crate::shm_ipc::Request;
use crate::shm_ipc::Response;
use vstd::prelude::*;

verus! {

/// The response that a request is owed by a table whose view is `table`.
/// It echoes the request's operation, key and counter. A `Read` carries the
/// stored value, or zero and the error flag where the key is absent; an
/// `Insert` carries the request's value, with the error flag where the key
/// is present already; a `Delete` carries zero, with the error flag where
/// the key is absent.
pub open spec fn response_for(table: Map<u32, u32>, request: Request<u32, u32>) -> Response<
    u32,
    u32,
> {
    let present = table.contains_key(request.key);
    match request.operation {
        Operation::Read => Response {
            operation: Operation::Read,
            error: !present,
            key: request.key,
            val: if present {
                table[request.key]
            } else {
                0u32
            },
            counter: request.counter,
        },
        Operation::Insert => Response {
            operation: Operation::Insert,
            error: present,
            key: request.key,
            val: request.val,
            counter: request.counter,
        },
        Operation::Delete => Response {
            operation: Operation::Delete,
            error: !present,
            key: request.key,
            val: 0u32,
            counter: request.counter,
        },
    }
}

/// The view of the table once the request was served.
pub open spec fn table_after(table: Map<u32, u32>, request: Request<u32, u32>) -> Map<u32, u32> {
    match request.operation {
        Operation::Read => table,
        Operation::Insert => add_state(table, request.key, request.val),
        Operation::Delete => delete_state(table, request.key),
    }
}

/// The response to a `Read` that found `found`.
pub fn respond_read(request: &Request<u32, u32>, found: Option<u32>) -> (response: Response<
    u32,
    u32,
>)
    ensures
        response == (Response {
            operation: Operation::Read,
            error: found is None,
            key: request.key,
            val: if found is Some {
                found->0
            } else {
                0u32
            },
            counter: request.counter,
        }),
{
    match found {
        Some(value) => Response {
            operation: Operation::Read,
            error: false,
            key: request.key,
            val: value,
            counter: request.counter,
        },
        None => Response {
            operation: Operation::Read,
            error: true,
            key: request.key,
            val: 0,
            counter: request.counter,
        },
    }
}

/// The response to an `Insert` that the table accepted or refused.
pub fn respond_insert(request: &Request<u32, u32>, accepted: bool) -> (response: Response<
    u32,
    u32,
>)
    ensures
        response == (Response {
            operation: Operation::Insert,
            error: !accepted,
            key: request.key,
            val: request.val,
            counter: request.counter,
        }),
{
    Response {
        operation: Operation::Insert,
        error: !accepted,
        key: request.key,
        val: request.val,
        counter: request.counter,
    }
}

/// The response to a `Delete` that the table accepted or refused.
pub fn respond_delete(request: &Request<u32, u32>, accepted: bool) -> (response: Response<
    u32,
    u32,
>)
    ensures
        response == (Response {
            operation: Operation::Delete,
            error: !accepted,
            key: request.key,
            val: 0u32,
            counter: request.counter,
        }),
{
    Response {
        operation: Operation::Delete,
        error: !accepted,
        key: request.key,
        val: 0,
        counter: request.counter,
    }
}

/// Runs one request against the table and builds its response.
pub fn serve(table: &mut HashTable<u32, u32>, request: &Request<u32, u32>) -> (response: Response<
    u32,
    u32,
>)
    requires
        old(table).wf(),
    ensures
        final(table).wf(),
        final(table).chains().len() == old(table).chains().len(),
        response == response_for(old(table)@, *request),
        final(table)@ == table_after(old(table)@, *request),
{
    match request.operation {
        Operation::Read => {
            let found = table.read(&request.key);
            respond_read(request, found)
        },
        Operation::Insert => {
            let outcome = table.add(request.key, request.val);
            respond_insert(request, outcome.is_ok())
        },
        Operation::Delete => {
            let outcome = table.delete(&request.key);
            respond_delete(request, outcome.is_ok())
        },
    }
}

/// Every response carries the operation, the key and the counter of the
/// request that it answers.
pub proof fn law_response_echoes_request(table: Map<u32, u32>, request: Request<u32, u32>)
    ensures
        response_for(table, request).operation == request.operation,
        response_for(table, request).key == request.key,
        response_for(table, request).counter == request.counter,
{
}

} // verus!
