//! The request and response rings that join a client to the server.
//!
//! A ring is a bounded FIFO over a fixed number of slots with a read and a
//! write position; one slot always stays free, so that equal positions mean
//! "empty". A queue pair holds one ring for requests and one for responses.
//! The view of a ring is the sequence of items waiting in it, oldest first.

use vstd::prelude::*;
use vstd::string::StringExecFns;

verus! {

/// The number of slots of a ring. One of them always stays free.
pub const BUFFER_SIZE: usize = 10;

/// Why a queue operation failed.
#[derive(Debug)]
pub enum Error {
    /// The operating system refused a call on the segment, with this code.
    Io(i32),
    /// The ring's lock could not be set up.
    MutexInit(String),
    /// The ring's condition could not be set up.
    CondInit(String),
    /// The ring has no free slot.
    BufferFull,
}

impl Error {
    /// Whether the error is `BufferFull`, the one error that a caller
    /// answers by waiting and trying the same `put` again.
    pub fn is_buffer_full(&self) -> (full: bool)
        ensures
            full == (self is BufferFull),
    {
        match self {
            Error::BufferFull => true,
            _ => false,
        }
    }
}

/// The operations that the table serves.
#[derive(Clone, Copy, PartialEq, Eq, Debug, Structural)]
pub enum Operation {
    Read,
    Insert,
    Delete,
}

impl Operation {
    /// The number that stands for the operation on the wire.
    pub open spec fn spec_code(self) -> u8 {
        match self {
            Operation::Read => 0,
            Operation::Insert => 1,
            Operation::Delete => 2,
        }
    }

    /// The number that stands for the operation on the wire.
    pub fn code(&self) -> (code: u8)
        ensures
            code == self.spec_code(),
    {
        match self {
            Operation::Read => 0,
            Operation::Insert => 1,
            Operation::Delete => 2,
        }
    }

    /// The operation that a wire number stands for, if it stands for one.
    pub fn from_code(code: u8) -> (operation: Option<Operation>)
        ensures
            match operation {
                Some(op) => op.spec_code() == code,
                None => code > 2,
            },
    {
        if code == 0 {
            Some(Operation::Read)
        } else if code == 1 {
            Some(Operation::Insert)
        } else if code == 2 {
            Some(Operation::Delete)
        } else {
            None
        }
    }
}

/// Response sent to the client. `val` is zero for `Delete` and for a `Read`
/// that found nothing.
#[derive(Clone, Copy, Debug)]
pub struct Response<K, V> {
    pub operation: Operation,
    pub error: bool,
    pub key: K,
    pub val: V,
    pub counter: usize,
}

/// Request sent by the client.
#[derive(Clone, Copy, Debug)]
pub struct Request<K, V> {
    pub operation: Operation,
    pub key: K,
    pub val: V,
    pub counter: usize,
}

/// The position that follows `pos` on the ring.
pub open spec fn ring_next(pos: int) -> int {
    (pos + 1) % (BUFFER_SIZE as int)
}

/// The number of items between a read and a write position.
pub open spec fn ring_count(read_pos: int, write_pos: int) -> int {
    (write_pos + BUFFER_SIZE - read_pos) % (BUFFER_SIZE as int)
}

/// The position that follows `pos` on the ring.
pub fn next_pos(pos: usize) -> (next: usize)
    requires
        pos < BUFFER_SIZE,
    ensures
        next == ring_next(pos as int),
        next < BUFFER_SIZE,
{
    (pos + 1) % BUFFER_SIZE
}

/// Whether a ring with these positions has no free slot.
pub fn full_at(read_pos: usize, write_pos: usize) -> (full: bool)
    requires
        read_pos < BUFFER_SIZE,
        write_pos < BUFFER_SIZE,
    ensures
        full == (ring_next(write_pos as int) == read_pos),
        full == (ring_count(read_pos as int, write_pos as int) == BUFFER_SIZE - 1),
{
    (write_pos + 1) % BUFFER_SIZE == read_pos
}

/// Whether a ring with these positions holds nothing.
pub fn empty_at(read_pos: usize, write_pos: usize) -> (empty: bool)
    requires
        read_pos < BUFFER_SIZE,
        write_pos < BUFFER_SIZE,
    ensures
        empty == (read_pos == write_pos),
        empty == (ring_count(read_pos as int, write_pos as int) == 0),
{
    read_pos == write_pos
}

/// A bounded FIFO over `BUFFER_SIZE` slots.
#[derive(Debug)]
pub struct RingBuffer<T> {
    buffer: Vec<Option<T>>,
    read_pos: usize,
    write_pos: usize,
}

impl<T: Copy> View for RingBuffer<T> {
    type V = Seq<T>;

    /// The items that wait in the ring, oldest first.
    open spec fn view(&self) -> Seq<T> {
        Seq::new(
            ring_count(self.read_at(), self.write_at()) as nat,
            |i: int| self.slots()[(self.read_at() + i) % (BUFFER_SIZE as int)]->0,
        )
    }
}

impl<T: Copy> RingBuffer<T> {
    /// The slots of the ring; a slot that was never written holds `None`.
    pub closed spec fn slots(&self) -> Seq<Option<T>> {
        self.buffer@
    }

    /// The position of the oldest item.
    pub closed spec fn read_at(&self) -> int {
        self.read_pos as int
    }

    /// The position of the next free slot.
    pub closed spec fn write_at(&self) -> int {
        self.write_pos as int
    }

    /// Both positions are on the ring, and every slot from the read position
    /// up to the write position holds an item.
    pub open spec fn wf(&self) -> bool {
        &&& self.slots().len() == BUFFER_SIZE
        &&& 0 <= self.read_at() < BUFFER_SIZE
        &&& 0 <= self.write_at() < BUFFER_SIZE
        &&& forall|i: int|
            0 <= i < ring_count(self.read_at(), self.write_at()) ==> (#[trigger] self.slots()[(
            self.read_at() + i) % (BUFFER_SIZE as int)]) is Some
    }

    /// An empty ring with both positions at zero.
    pub fn new() -> (ring: Self)
        ensures
            ring.wf(),
            ring.read_at() == 0,
            ring.write_at() == 0,
            ring@ == Seq::<T>::empty(),
    {
        let mut buffer: Vec<Option<T>> = Vec::with_capacity(BUFFER_SIZE);
        let mut made: usize = 0;
        while made < BUFFER_SIZE
            invariant
                made <= BUFFER_SIZE,
                buffer@.len() == made,
            decreases BUFFER_SIZE - made,
        {
            buffer.push(None);
            made += 1;
        }
        let ring = RingBuffer { buffer, read_pos: 0, write_pos: 0 };
        proof {
            assert(ring@ =~= Seq::<T>::empty());
        }
        ring
    }

    /// Sets both positions to zero, which empties the ring.
    pub fn init(&mut self) -> (res: Result<(), Error>)
        requires
            old(self).slots().len() == BUFFER_SIZE,
        ensures
            res is Ok,
            final(self).wf(),
            final(self).read_at() == 0,
            final(self).write_at() == 0,
            final(self).slots() == old(self).slots(),
            final(self)@ == Seq::<T>::empty(),
    {
        self.read_pos = 0;
        self.write_pos = 0;
        proof {
            assert(self@ =~= Seq::<T>::empty());
        }
        Ok(())
    }

    /// The number of items that wait in the ring.
    pub fn len(&self) -> (count: usize)
        requires
            self.wf(),
        ensures
            count == self@.len(),
            count == ring_count(self.read_at(), self.write_at()),
            count < BUFFER_SIZE,
    {
        (self.write_pos + BUFFER_SIZE - self.read_pos) % BUFFER_SIZE
    }

    /// Whether nothing waits in the ring.
    pub fn is_empty(&self) -> (empty: bool)
        requires
            self.wf(),
        ensures
            empty == (self@.len() == 0),
            empty == (self.read_at() == self.write_at()),
    {
        empty_at(self.read_pos, self.write_pos)
    }

    /// Whether the ring has no free slot.
    pub fn is_full(&self) -> (full: bool)
        requires
            self.wf(),
        ensures
            full == (self@.len() == BUFFER_SIZE - 1),
            full == (ring_next(self.write_at()) == self.read_at()),
    {
        full_at(self.read_pos, self.write_pos)
    }

    /// Copies `data` into the slot at the write position and moves that
    /// position on; refused, with the ring unchanged, when no slot is free.
    pub fn put(&mut self, data: &T) -> (res: Result<(), Error>)
        requires
            old(self).wf(),
        ensures
            final(self).wf(),
            res == put_result(old(self)@),
            final(self)@ == after_put(old(self)@, *data),
            final(self).read_at() == old(self).read_at(),
            res is Err ==> *final(self) == *old(self),
            res is Ok ==> final(self).write_at() == ring_next(old(self).write_at()),
    {
        if full_at(self.read_pos, self.write_pos) {
            return Err(Error::BufferFull);
        }
        let ghost before = *self;
        let at = self.write_pos;
        self.buffer[at] = Some(*data);
        self.write_pos = next_pos(at);
        proof {
            let r = before.read_at();
            let n = before@.len() as int;
            assert forall|i: int| 0 <= i < n + 1 implies (#[trigger] self.slots()[(r + i) % (
            BUFFER_SIZE as int)]) is Some && self.slots()[(r + i) % (BUFFER_SIZE as int)]->0
                == before@.push(*data)[i] by {
                if i < n {
                    assert(before.slots()[(r + i) % (BUFFER_SIZE as int)] is Some);
                    assert((r + i) % (BUFFER_SIZE as int) != at);
                } else {
                    assert((r + i) % (BUFFER_SIZE as int) == at);
                }
            }
            assert(self@ =~= before@.push(*data));
        }
        Ok(())
    }

    /// Takes the oldest item out of the ring and moves the read position on;
    /// `None`, with the ring unchanged, when nothing waits.
    pub fn get(&mut self) -> (item: Option<T>)
        requires
            old(self).wf(),
        ensures
            final(self).wf(),
            final(self).write_at() == old(self).write_at(),
            final(self).slots() == old(self).slots(),
            item == got(old(self)@),
            final(self)@ == after_get(old(self)@),
            item is None ==> *final(self) == *old(self),
            item is Some ==> final(self).read_at() == ring_next(old(self).read_at()),
    {
        if empty_at(self.read_pos, self.write_pos) {
            return None;
        }
        let ghost before = *self;
        let at = self.read_pos;
        let item = self.buffer[at];
        self.read_pos = next_pos(at);
        proof {
            let r = before.read_at();
            let n = before@.len() as int;
            assert(before.slots()[(r + 0) % (BUFFER_SIZE as int)] is Some);
            assert forall|i: int| 0 <= i < n - 1 implies (#[trigger] self.slots()[(self.read_at()
                + i) % (BUFFER_SIZE as int)]) is Some && self.slots()[(self.read_at() + i) % (
            BUFFER_SIZE as int)]->0 == before@.drop_first()[i] by {
                assert((self.read_at() + i) % (BUFFER_SIZE as int) == (r + (i + 1)) % (
                BUFFER_SIZE as int));
                assert(before.slots()[(r + (i + 1)) % (BUFFER_SIZE as int)] is Some);
            }
            assert(self@ =~= before@.drop_first());
        }
        item
    }
}

/// What `put` returns: refused exactly when every usable slot is taken.
pub open spec fn put_result<T>(items: Seq<T>) -> Result<(), Error> {
    if items.len() < BUFFER_SIZE - 1 {
        Ok(())
    } else {
        Err(Error::BufferFull)
    }
}

/// What the ring holds after `put` of `data`: the item joins at the back,
/// unless the ring is full.
pub open spec fn after_put<T>(items: Seq<T>, data: T) -> Seq<T> {
    if items.len() < BUFFER_SIZE - 1 {
        items.push(data)
    } else {
        items
    }
}

/// What `get` returns: the oldest item, if there is one.
pub open spec fn got<T>(items: Seq<T>) -> Option<T> {
    if items.len() > 0 {
        Some(items[0])
    } else {
        None
    }
}

/// What the ring holds after `get`.
pub open spec fn after_get<T>(items: Seq<T>) -> Seq<T> {
    if items.len() > 0 {
        items.drop_first()
    } else {
        items
    }
}

/// Both positions of a ring are on the ring, and the number of slots from
/// the read position up to the write position is the number of items that
/// wait, which never exceeds `BUFFER_SIZE - 1`.
pub proof fn law_ring_positions<T: Copy>(ring: RingBuffer<T>)
    requires
        ring.wf(),
    ensures
        0 <= ring.read_at() < BUFFER_SIZE,
        0 <= ring.write_at() < BUFFER_SIZE,
        ring@.len() == ring_count(ring.read_at(), ring.write_at()),
        ring@.len() <= BUFFER_SIZE - 1,
{
}

/// An accepted `put` adds one to the number of waiting items and a `get`
/// that yields an item takes one away; a refused `put` and a `get` on an
/// empty ring leave the number as it was.
pub proof fn law_ring_count<T>(items: Seq<T>, data: T)
    ensures
        after_put(items, data).len() == items.len() + (if put_result(items) is Ok {
            1int
        } else {
            0int
        }),
        after_get(items).len() == items.len() - (if got(items) is Some {
            1int
        } else {
            0int
        }),
{
}

/// First in, first out: an accepted `put` leaves the waiting items in
/// place and sets `data` behind them, so on an empty ring the next `get`
/// returns `data` itself.
pub proof fn law_put_then_get<T>(items: Seq<T>, data: T)
    requires
        put_result(items) is Ok,
    ensures
        after_put(items, data).len() == items.len() + 1,
        after_put(items, data)[items.len() as int] == data,
        forall|i: int| 0 <= i < items.len() ==> after_put(items, data)[i] == items[i],
        items.len() == 0 ==> got(after_put(items, data)) == Some(data),
        items.len() == 0 ==> after_get(after_put(items, data)) == items,
{
    if items.len() == 0 {
        assert(after_get(after_put(items, data)) =~= items);
    }
}

/// The steps of setting up a lock or a condition that processes share.
#[derive(Clone, Copy, PartialEq, Eq, Debug, Structural)]
pub enum SetupStep {
    /// The attribute object is created.
    Attributes,
    /// The attribute object is marked as shared between processes.
    Shared,
    /// The primitive itself is initialised with the attributes.
    Primitive,
}

/// The message that reports a failed step of setting up a lock.
pub open spec fn lock_message(step: SetupStep) -> Seq<char> {
    match step {
        SetupStep::Attributes => "Failed creating attrs"@,
        SetupStep::Shared => "Failed to set shared process attr"@,
        SetupStep::Primitive => "Failed to init mutex"@,
    }
}

/// The message that reports a failed step of setting up a condition.
pub open spec fn cond_message(step: SetupStep) -> Seq<char> {
    match step {
        SetupStep::Attributes => "Failed creating attrs"@,
        SetupStep::Shared => "Failed to set shared process attr"@,
        SetupStep::Primitive => "Failed to init cond"@,
    }
}

/// Judges the status that a step of setting up a lock returned: zero is
/// success, anything else is `MutexInit` with the step's message.
pub fn setup_lock(step: SetupStep, status: i32) -> (res: Result<(), Error>)
    ensures
        status == 0 ==> res is Ok,
        status != 0 ==> (match res {
            Err(Error::MutexInit(text)) => text@ == lock_message(step),
            _ => false,
        }),
{
    if status == 0 {
        return Ok(());
    }
    let text = match step {
        SetupStep::Attributes => String::from_str("Failed creating attrs"),
        SetupStep::Shared => String::from_str("Failed to set shared process attr"),
        SetupStep::Primitive => String::from_str("Failed to init mutex"),
    };
    Err(Error::MutexInit(text))
}

/// Judges the status that a step of setting up a condition returned: zero
/// is success, anything else is `CondInit` with the step's message.
pub fn setup_cond(step: SetupStep, status: i32) -> (res: Result<(), Error>)
    ensures
        status == 0 ==> res is Ok,
        status != 0 ==> (match res {
            Err(Error::CondInit(text)) => text@ == cond_message(step),
            _ => false,
        }),
{
    if status == 0 {
        return Ok(());
    }
    let text = match step {
        SetupStep::Attributes => String::from_str("Failed creating attrs"),
        SetupStep::Shared => String::from_str("Failed to set shared process attr"),
        SetupStep::Primitive => String::from_str("Failed to init cond"),
    };
    Err(Error::CondInit(text))
}

/// The name of the segment that serves the client: `hashtable-` and the
/// client's id.
pub fn segment_name(client_id: &str) -> (name: String)
    ensures
        name@ == "hashtable-"@ + client_id@,
{
    let mut name = String::from_str("hashtable-");
    name.append(client_id);
    name
}

/// The two rings of one client: requests towards the server, responses
/// back to the client.
#[derive(Debug)]
pub struct SharedBuffer<K, V> {
    request_buffer: RingBuffer<Request<K, V>>,
    response_buffer: RingBuffer<Response<K, V>>,
}

impl<K: Copy, V: Copy> SharedBuffer<K, V> {
    /// The requests that wait for the server, oldest first.
    pub closed spec fn requests(&self) -> Seq<Request<K, V>> {
        self.request_buffer@
    }

    /// The responses that wait for the client, oldest first.
    pub closed spec fn responses(&self) -> Seq<Response<K, V>> {
        self.response_buffer@
    }

    /// Both rings are well formed.
    pub closed spec fn wf(&self) -> bool {
        self.request_buffer.wf() && self.response_buffer.wf()
    }

    /// Two empty rings.
    pub fn new() -> (buffer: Self)
        ensures
            buffer.wf(),
            buffer.requests() == Seq::<Request<K, V>>::empty(),
            buffer.responses() == Seq::<Response<K, V>>::empty(),
    {
        SharedBuffer { request_buffer: RingBuffer::new(), response_buffer: RingBuffer::new() }
    }

    /// Empties both rings.
    pub fn init(&mut self) -> (res: Result<(), Error>)
        requires
            old(self).wf(),
        ensures
            res is Ok,
            final(self).wf(),
            final(self).requests() == Seq::<Request<K, V>>::empty(),
            final(self).responses() == Seq::<Response<K, V>>::empty(),
    {
        match self.request_buffer.init() {
            Ok(()) => self.response_buffer.init(),
            Err(e) => Err(e),
        }
    }

    /// Puts a request on the request ring.
    pub fn request_put(&mut self, request: &Request<K, V>) -> (res: Result<(), Error>)
        requires
            old(self).wf(),
        ensures
            final(self).wf(),
            res == put_result(old(self).requests()),
            final(self).requests() == after_put(old(self).requests(), *request),
            final(self).responses() == old(self).responses(),
    {
        self.request_buffer.put(request)
    }

    /// Takes the oldest request off the request ring.
    pub fn request_get(&mut self) -> (request: Option<Request<K, V>>)
        requires
            old(self).wf(),
        ensures
            final(self).wf(),
            request == got(old(self).requests()),
            final(self).requests() == after_get(old(self).requests()),
            final(self).responses() == old(self).responses(),
    {
        self.request_buffer.get()
    }

    /// Puts a response on the response ring.
    pub fn response_put(&mut self, response: &Response<K, V>) -> (res: Result<(), Error>)
        requires
            old(self).wf(),
        ensures
            final(self).wf(),
            res == put_result(old(self).responses()),
            final(self).responses() == after_put(old(self).responses(), *response),
            final(self).requests() == old(self).requests(),
    {
        self.response_buffer.put(response)
    }

    /// Takes the oldest response off the response ring.
    pub fn response_get(&mut self) -> (response: Option<Response<K, V>>)
        requires
            old(self).wf(),
        ensures
            final(self).wf(),
            response == got(old(self).responses()),
            final(self).responses() == after_get(old(self).responses()),
            final(self).requests() == old(self).requests(),
    {
        self.response_buffer.get()
    }
}

/// A named pair of rings, held by the server that made it or by the client
/// that attached to it.
#[derive(Debug)]
pub struct ShmQueue<K, V> {
    buffer: SharedBuffer<K, V>,
    server: bool,
    name: String,
}

impl<K: Copy, V: Copy> ShmQueue<K, V> {
    /// The requests that wait for the server, oldest first.
    pub closed spec fn requests(&self) -> Seq<Request<K, V>> {
        self.buffer.requests()
    }

    /// The responses that wait for the client, oldest first.
    pub closed spec fn responses(&self) -> Seq<Response<K, V>> {
        self.buffer.responses()
    }

    /// Whether this handle is the server's.
    pub closed spec fn is_server(&self) -> bool {
        self.server
    }

    /// The name of the segment.
    pub closed spec fn name(&self) -> Seq<char> {
        self.name@
    }

    /// Both rings are well formed.
    pub closed spec fn wf(&self) -> bool {
        self.buffer.wf()
    }

    /// A pair of empty rings under `name`.
    pub fn new(name: &str, server: bool) -> (queue: Self)
        ensures
            queue.wf(),
            queue.requests() == Seq::<Request<K, V>>::empty(),
            queue.responses() == Seq::<Response<K, V>>::empty(),
            queue.is_server() == server,
            queue.name() == name@,
    {
        ShmQueue { buffer: SharedBuffer::new(), server, name: String::from_str(name) }
    }

    /// Puts a request on the request ring.
    pub fn request_put(&mut self, request: &Request<K, V>) -> (res: Result<(), Error>)
        requires
            old(self).wf(),
        ensures
            final(self).wf(),
            res == put_result(old(self).requests()),
            final(self).requests() == after_put(old(self).requests(), *request),
            final(self).responses() == old(self).responses(),
            final(self).is_server() == old(self).is_server(),
            final(self).name() == old(self).name(),
    {
        self.buffer.request_put(request)
    }

    /// Takes the oldest request off the request ring.
    pub fn request_get(&mut self) -> (request: Option<Request<K, V>>)
        requires
            old(self).wf(),
        ensures
            final(self).wf(),
            request == got(old(self).requests()),
            final(self).requests() == after_get(old(self).requests()),
            final(self).responses() == old(self).responses(),
            final(self).is_server() == old(self).is_server(),
            final(self).name() == old(self).name(),
    {
        self.buffer.request_get()
    }

    /// Puts a response on the response ring.
    pub fn response_put(&mut self, response: &Response<K, V>) -> (res: Result<(), Error>)
        requires
            old(self).wf(),
        ensures
            final(self).wf(),
            res == put_result(old(self).responses()),
            final(self).responses() == after_put(old(self).responses(), *response),
            final(self).requests() == old(self).requests(),
            final(self).is_server() == old(self).is_server(),
            final(self).name() == old(self).name(),
    {
        self.buffer.response_put(response)
    }

    /// Takes the oldest response off the response ring.
    pub fn response_get(&mut self) -> (response: Option<Response<K, V>>)
        requires
            old(self).wf(),
        ensures
            final(self).wf(),
            response == got(old(self).responses()),
            final(self).responses() == after_get(old(self).responses()),
            final(self).requests() == old(self).requests(),
            final(self).is_server() == old(self).is_server(),
            final(self).name() == old(self).name(),
    {
        self.buffer.response_get()
    }

    /// The name that is to be unlinked when this handle stops: the
    /// segment's own name for the server, none for a client.
    pub fn stop(&self) -> (unlink: Option<String>)
        ensures
            self.is_server() ==> (match unlink {
                Some(name) => name@ == self.name(),
                None => false,
            }),
            !self.is_server() ==> unlink is None,
    {
        if self.server {
            Some(self.name.clone())
        } else {
            None
        }
    }
}

/// One operation on a ring.
pub enum RingStep<T> {
    Put(T),
    Get,
}

/// What a ring holds after the steps were applied, in order, to an empty
/// ring.
pub open spec fn ring_after<T>(steps: Seq<RingStep<T>>) -> Seq<T>
    decreases steps.len(),
{
    if steps.len() == 0 {
        Seq::empty()
    } else {
        let before = ring_after(steps.drop_last());
        match steps.last() {
            RingStep::Put(data) => after_put(before, data),
            RingStep::Get => after_get(before),
        }
    }
}

/// The number of `Put` steps that were accepted, less the number of `Get`
/// steps that yielded an item.
pub open spec fn puts_less_gets<T>(steps: Seq<RingStep<T>>) -> int
    decreases steps.len(),
{
    if steps.len() == 0 {
        0
    } else {
        let before = ring_after(steps.drop_last());
        puts_less_gets(steps.drop_last()) + match steps.last() {
            RingStep::Put(_) => if put_result(before) is Ok {
                1int
            } else {
                0int
            },
            RingStep::Get => if got(before) is Some {
                -1int
            } else {
                0int
            },
        }
    }
}

/// After any sequence of operations on a ring that started empty, the
/// number of waiting items is the number of accepted puts less the number
/// of gets that yielded an item, and it never exceeds `BUFFER_SIZE - 1`.
pub proof fn law_ring_trace<T>(steps: Seq<RingStep<T>>)
    ensures
        ring_after(steps).len() == puts_less_gets(steps),
        ring_after(steps).len() <= BUFFER_SIZE - 1,
    decreases steps.len(),
{
    if steps.len() > 0 {
        law_ring_trace(steps.drop_last());
    }
}

} // verus!
