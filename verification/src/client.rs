//! The client's command line: a client id followed by any number of
//! `insert K V`, `delete K` and `read K` commands, and the requests that
//! these commands stand for.

use crate::shm_ipc::segment_name;
use crate::shm_ipc::Request;
use crate::shm_ipc::Response;
use std::num::ParseIntError;
use vstd::prelude::*;
use vstd::string::StringExecFns;

verus! {

/// The error that parsing a `u32` returns.
#[verifier::external_type_specification]
#[verifier::external_body]
pub struct ExParseIntError(std::num::ParseIntError);

/// Why the command line was refused.
#[derive(Debug)]
pub enum ClientError {
    ParserFailed(String),
    /// The line ended where the client id, a key or a value was due.
    ArgumentsMissing,
    /// A word stood where `insert`, `delete` or `read` was due.
    UnexpectedToken(String),
    /// A key or a value is not a `u32`.
    ParserError(ParseIntError),
}

/// One command of the client's command line.
#[derive(Clone, Copy, Debug)]
pub enum Operation {
    Read { key: u32 },
    Insert { key: u32, value: u32 },
    Delete { key: u32 },
}

/// The parsed command line: the name of the segment to attach to and the
/// commands in the order in which they were written.
#[derive(Debug)]
pub struct Args {
    pub client_id: String,
    pub operations: Vec<Operation>,
}

/// Whether the character is one of the ten decimal digits.
pub open spec fn is_digit(c: char) -> bool {
    48 <= c as u32 <= 57
}

/// The number that a sequence of decimal digits writes.
pub open spec fn decimal_value(digits: Seq<char>) -> nat
    decreases digits.len(),
{
    if digits.len() == 0 {
        0
    } else {
        decimal_value(digits.drop_last()) * 10 + (digits.last() as u32 - 48) as nat
    }
}

/// The `u32` that a text writes: an optional `+`, then at least one decimal
/// digit and nothing else, with a value of at most `u32::MAX`.
pub open spec fn parsed_u32(text: Seq<char>) -> Option<u32> {
    let digits = if text.len() > 0 && text[0] == '+' {
        text.skip(1)
    } else {
        text
    };
    if digits.len() > 0 && (forall|i: int| 0 <= i < digits.len() ==> is_digit(#[trigger] digits[i]))
        && decimal_value(digits) <= u32::MAX {
        Some(decimal_value(digits) as u32)
    } else {
        None
    }
}

/// Reads a `u32` with `str::parse::<u32>`.
///
/// Trusted: the call accepts an optional `+` followed by decimal digits
/// whose value fits a `u32`, yields that value, and fails on every other
/// text.
#[verifier::external_body]
fn parse_u32(text: &str) -> (res: Result<u32, ParseIntError>)
    ensures
        match res {
            Ok(number) => parsed_u32(text@) == Some(number),
            Err(_) => parsed_u32(text@) is None,
        },
{
    text.parse::<u32>()
}

/// What a sequence of words parses to.
pub enum Parsed {
    /// Every word was used; these are the commands.
    Done(Seq<Operation>),
    /// The words ended where a key or a value was due.
    Missing,
    /// This word stood where a command word was due.
    Unexpected(Seq<char>),
    /// A key or a value is not a `u32`.
    BadNumber,
}

/// The outcome `rest` of the later words, behind the commands `done` that
/// were read before them.
pub open spec fn behind(done: Seq<Operation>, rest: Parsed) -> Parsed {
    match rest {
        Parsed::Done(operations) => Parsed::Done(done + operations),
        other => other,
    }
}

/// Whether a number stands at position `at`: `Done` where one does, else
/// the fault that ends the parse.
pub open spec fn number_at(words: Seq<Seq<char>>, at: int) -> Parsed {
    if at >= words.len() {
        Parsed::Missing
    } else if parsed_u32(words[at]) is None {
        Parsed::BadNumber
    } else {
        Parsed::Done(Seq::empty())
    }
}

/// The commands that the words spell, read from left to right; the first
/// fault decides the outcome.
pub open spec fn parse_operations(words: Seq<Seq<char>>) -> Parsed
    decreases words.len(),
{
    if words.len() == 0 {
        Parsed::Done(Seq::empty())
    } else if words[0] == "insert"@ {
        if !(number_at(words, 1) is Done) {
            number_at(words, 1)
        } else if !(number_at(words, 2) is Done) {
            number_at(words, 2)
        } else {
            behind(
                seq![
                    Operation::Insert {
                        key: parsed_u32(words[1])->0,
                        value: parsed_u32(words[2])->0,
                    },
                ],
                parse_operations(words.skip(3)),
            )
        }
    } else if words[0] == "delete"@ {
        if !(number_at(words, 1) is Done) {
            number_at(words, 1)
        } else {
            behind(
                seq![Operation::Delete { key: parsed_u32(words[1])->0 }],
                parse_operations(words.skip(2)),
            )
        }
    } else if words[0] == "read"@ {
        if !(number_at(words, 1) is Done) {
            number_at(words, 1)
        } else {
            behind(
                seq![Operation::Read { key: parsed_u32(words[1])->0 }],
                parse_operations(words.skip(2)),
            )
        }
    } else {
        Parsed::Unexpected(words[0])
    }
}

/// The arguments as sequences of characters.
pub open spec fn texts(args: Seq<String>) -> Seq<Seq<char>> {
    Seq::new(args.len(), |i: int| args[i]@)
}

/// Reading one more command extends what was read before.
proof fn lemma_behind_step(done: Seq<Operation>, operation: Operation, rest: Parsed)
    ensures
        behind(done, behind(seq![operation], rest)) == behind(done.push(operation), rest),
{
    match rest {
        Parsed::Done(operations) => {
            assert(done + (seq![operation] + operations) =~= done.push(operation) + operations);
        },
        _ => {},
    }
}

/// The key or value at position `at` of the arguments.
fn number(args: &Vec<String>, at: usize) -> (res: Result<u32, ClientError>)
    ensures
        match res {
            Ok(value) => at < args@.len() && parsed_u32(args@[at as int]@) == Some(value),
            Err(ClientError::ArgumentsMissing) => at >= args@.len(),
            Err(ClientError::ParserError(_)) => at < args@.len() && parsed_u32(
                args@[at as int]@,
            ) is None,
            Err(_) => false,
        },
{
    if at >= args.len() {
        return Err(ClientError::ArgumentsMissing);
    }
    match parse_u32(args[at].as_str()) {
        Ok(value) => Ok(value),
        Err(e) => Err(ClientError::ParserError(e)),
    }
}

impl Args {
    /// Parses the arguments of the program: its own name, the client id,
    /// then the commands. The segment's name is `hashtable-` and the id.
    pub fn parse(args: &Vec<String>) -> (res: Result<Args, ClientError>)
        ensures
            match res {
                Ok(parsed) => {
                    &&& args@.len() >= 2
                    &&& parsed.client_id@ == "hashtable-"@ + args@[1]@
                    &&& parse_operations(texts(args@).skip(2)) == Parsed::Done(
                        parsed.operations@,
                    )
                },
                Err(ClientError::ArgumentsMissing) => args@.len() < 2 || parse_operations(
                    texts(args@).skip(2),
                ) is Missing,
                Err(ClientError::UnexpectedToken(token)) => args@.len() >= 2 && parse_operations(
                    texts(args@).skip(2),
                ) == Parsed::Unexpected(token@),
                Err(ClientError::ParserError(_)) => args@.len() >= 2 && parse_operations(
                    texts(args@).skip(2),
                ) is BadNumber,
                Err(ClientError::ParserFailed(_)) => false,
            },
    {
        if args.len() < 2 {
            return Err(ClientError::ArgumentsMissing);
        }
        let client_id = segment_name(args[1].as_str());
        let insert_word = String::from_str("insert");
        let delete_word = String::from_str("delete");
        let read_word = String::from_str("read");
        let ghost words = texts(args@);
        let mut operations: Vec<Operation> = Vec::new();
        let mut at: usize = 2;
        proof {
            assert(Seq::<Operation>::empty() + Seq::<Operation>::empty() =~= Seq::<
                Operation,
            >::empty());
            assert(operations@ =~= Seq::<Operation>::empty());
            match parse_operations(words.skip(2)) {
                Parsed::Done(found) => {
                    assert(Seq::<Operation>::empty() + found =~= found);
                },
                _ => {},
            }
        }
        while at < args.len()
            invariant
                2 <= at <= args@.len(),
                words == texts(args@),
                insert_word@ == "insert"@,
                delete_word@ == "delete"@,
                read_word@ == "read"@,
                parse_operations(words.skip(2)) == behind(
                    operations@,
                    parse_operations(words.skip(at as int)),
                ),
            decreases args@.len() - at,
        {
            let ghost rest = words.skip(at as int);
            proof {
                assert(rest.len() == words.len() - at);
                assert(rest[0] == args@[at as int]@);
                if at + 1 < args@.len() {
                    assert(rest[1] == args@[at + 1]@);
                }
                if at + 2 < args@.len() {
                    assert(rest[2] == args@[at + 2]@);
                }
                if at + 2 <= args@.len() {
                    assert(rest.skip(2) =~= words.skip(at + 2));
                }
                if at + 3 <= args@.len() {
                    assert(rest.skip(3) =~= words.skip(at + 3));
                }
            }
            if args[at] == insert_word {
                let key = match number(args, at + 1) {
                    Ok(key) => key,
                    Err(e) => {
                        return Err(e);
                    },
                };
                let value = match number(args, at + 2) {
                    Ok(value) => value,
                    Err(e) => {
                        return Err(e);
                    },
                };
                let operation = Operation::Insert { key, value };
                proof {
                    lemma_behind_step(
                        operations@,
                        operation,
                        parse_operations(words.skip(at + 3)),
                    );
                }
                operations.push(operation);
                at += 3;
            } else if args[at] == delete_word {
                let key = match number(args, at + 1) {
                    Ok(key) => key,
                    Err(e) => {
                        return Err(e);
                    },
                };
                let operation = Operation::Delete { key };
                proof {
                    lemma_behind_step(
                        operations@,
                        operation,
                        parse_operations(words.skip(at + 2)),
                    );
                }
                operations.push(operation);
                at += 2;
            } else if args[at] == read_word {
                let key = match number(args, at + 1) {
                    Ok(key) => key,
                    Err(e) => {
                        return Err(e);
                    },
                };
                let operation = Operation::Read { key };
                proof {
                    lemma_behind_step(
                        operations@,
                        operation,
                        parse_operations(words.skip(at + 2)),
                    );
                }
                operations.push(operation);
                at += 2;
            } else {
                return Err(ClientError::UnexpectedToken(args[at].clone()));
            }
        }
        proof {
            assert(operations@ + Seq::<Operation>::empty() =~= operations@);
        }
        Ok(Args { client_id, operations })
    }
}

/// The request that a command stands for, under the given counter. A
/// command without a value sends zero.
pub fn request_for(operation: &Operation, counter: usize) -> (request: Request<u32, u32>)
    ensures
        request == (match *operation {
            Operation::Read { key } => Request {
                operation: crate::shm_ipc::Operation::Read,
                key,
                val: 0u32,
                counter,
            },
            Operation::Insert { key, value } => Request {
                operation: crate::shm_ipc::Operation::Insert,
                key,
                val: value,
                counter,
            },
            Operation::Delete { key } => Request {
                operation: crate::shm_ipc::Operation::Delete,
                key,
                val: 0u32,
                counter,
            },
        }),
{
    match *operation {
        Operation::Read { key } => Request {
            operation: crate::shm_ipc::Operation::Read,
            key,
            val: 0,
            counter,
        },
        Operation::Insert { key, value } => Request {
            operation: crate::shm_ipc::Operation::Insert,
            key,
            val: value,
            counter,
        },
        Operation::Delete { key } => Request {
            operation: crate::shm_ipc::Operation::Delete,
            key,
            val: 0,
            counter,
        },
    }
}

/// What the client does with a response.
#[derive(Clone, Copy, PartialEq, Eq, Debug, Structural)]
pub enum Report {
    /// The operation failed: a diagnostic line is due.
    Failed,
    /// A read succeeded: the key and its value are printed.
    Value { key: u32, val: u32 },
    /// An insert or a delete succeeded: nothing is printed.
    Silent,
}

/// Judges a response: a failure is reported, a successful read shows its
/// key and value, every other success is silent.
pub fn report(response: &Response<u32, u32>) -> (verdict: Report)
    ensures
        verdict == (if response.error {
            Report::Failed
        } else if response.operation == crate::shm_ipc::Operation::Read {
            Report::Value { key: response.key, val: response.val }
        } else {
            Report::Silent
        }),
{
    if response.error {
        Report::Failed
    } else {
        match response.operation {
            crate::shm_ipc::Operation::Read => Report::Value {
                key: response.key,
                val: response.val,
            },
            _ => Report::Silent,
        }
    }
}

} // verus!
