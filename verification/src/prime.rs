//! Primality on request: a request names a method and a number, and the
//! reply says whether the number is prime.
//!
//! Requests and replies travel as JSON, one object to a line. Reading and
//! writing JSON is left to the caller: a request arrives here as the method
//! and the number that it asks about.

use vstd::prelude::*;
use vstd::string::*;
use crate::framer::{ReadOutcome, NEWLINE};

verus! {

/// The one method that is served.
pub const VALID_METHOD: &'static str = "isPrime";

/// The method named in the reply to a request that cannot be served.
pub const INVALID_METHOD: &'static str = "invalid";

/// A prime is a number from 2 on that nothing between 1 and itself
/// divides.
pub open spec fn is_prime(n: nat) -> bool {
    &&& n >= 2
    &&& forall|d: nat| 2 <= d < n ==> #[trigger] (n % d) != 0
}

/// A divisor of `n` above the root of `n` has a partner below it.
proof fn lemma_partner_divisor(n: nat, k: nat, d: nat)
    requires
        2 <= d <= k < n,
        n % k == 0,
        n / d < d,
    ensures
        2 <= n / k < d,
        n % (n / k) == 0,
{
    let q = n / k;
    assert(n == k * q) by (nonlinear_arith)
        requires
            k > 0,
            n % k == 0,
            q == n / k,
    ;
    assert(q >= 2) by (nonlinear_arith)
        requires
            n == k * q,
            k < n,
            k >= 2,
    ;
    assert(q < d) by (nonlinear_arith)
        requires
            n == k * q,
            d <= k,
            n / d < d,
            d >= 2,
    ;
    assert(n % q == 0) by (nonlinear_arith)
        requires
            n == k * q,
            q > 0,
    ;
}

/// Whether `number` is prime, by trial division up to its root.
pub fn dumb_is_prime(number: u64) -> (prime: bool)
    ensures
        prime == is_prime(number as nat),
{
    if number <= 1 {
        return false;
    }
    let mut d: u64 = 2;
    while d <= number / d
        invariant
            2 <= d,
            2 <= number,
            forall|k: nat| 2 <= k < d ==> #[trigger] (number as nat % k) != 0,
        decreases number - d,
    {
        assert(d < number) by (nonlinear_arith)
            requires
                2 <= d <= number / d,
        ;
        if number % d == 0 {
            assert(number as nat % d as nat == 0);
            return false;
        }
        d += 1;
    }
    proof {
        let n = number as nat;
        assert forall|k: nat| 2 <= k < n implies #[trigger] (n % k) != 0 by {
            if k >= d && n % k == 0 {
                lemma_partner_divisor(n, k, d as nat);
                assert(n % (n / k) != 0);
            }
        }
    }
    true
}

/// A request as read off a line of JSON.
#[derive(Clone, Debug, PartialEq, Eq)]
pub struct ServerRequest {
    /// The method asked for.
    pub method: String,
    /// The number asked about where it is whole, with everything below 0
    /// taken as 0 and everything above the largest `u64` as that; `None`
    /// where it has a fractional part.
    pub number: Option<u64>,
}

/// The reply to a request.
#[derive(Clone, Debug, PartialEq, Eq)]
pub struct ServerReply {
    pub method: String,
    pub prime: bool,
}

/// Why a request cannot be served.
#[derive(Clone, Copy, Debug, PartialEq, Eq, Structural)]
pub enum RequestError {
    /// The line is not a request.
    InvalidPayload,
    /// The request asks for another method.
    InvalidMethod,
}

impl RequestError {
    /// A short description for diagnostics.
    pub fn message(&self) -> (text: &'static str)
        ensures
            text@ == match *self {
                RequestError::InvalidPayload => "Failed to parse the json payload"@,
                RequestError::InvalidMethod => "Error, invalid request method"@,
            },
    {
        match self {
            RequestError::InvalidPayload => "Failed to parse the json payload",
            RequestError::InvalidMethod => "Error, invalid request method",
        }
    }
}

/// What a well-formed request is answered with: whether its number is a
/// prime. A number with a fractional part is none.
pub open spec fn asks_about_a_prime(number: Option<u64>) -> bool {
    match number {
        Some(n) => is_prime(n as nat),
        None => false,
    }
}

/// Checks a request and answers it: an error for any method but the one
/// served, otherwise whether the number is prime.
pub fn check_well_formated_request(request: &ServerRequest) -> (res: Result<bool, RequestError>)
    ensures
        res == if request.method@ == VALID_METHOD@ {
            Ok::<bool, RequestError>(asks_about_a_prime(request.number))
        } else {
            Err::<bool, RequestError>(RequestError::InvalidMethod)
        },
{
    if !(request.method == String::from_str(VALID_METHOD)) {
        return Err(RequestError::InvalidMethod);
    }
    match request.number {
        Some(n) => Ok(dumb_is_prime(n)),
        None => Ok(false),
    }
}

/// The outcome of a line: the request where the line is one, or the reason
/// why it cannot be served.
pub open spec fn outcome(request: Option<ServerRequest>) -> Result<bool, RequestError> {
    match request {
        Some(r) => if r.method@ == VALID_METHOD@ {
            Ok(asks_about_a_prime(r.number))
        } else {
            Err(RequestError::InvalidMethod)
        },
        None => Err(RequestError::InvalidPayload),
    }
}

/// Writes the reply to a line, and says whether the conversation goes on.
///
/// `request` is what the line was read as, `None` where it is no request.
/// A request that can be served is answered under its method and the
/// conversation goes on. Anything else is answered with a malformed reply,
/// and that is the end of it.
pub fn generate_response(request: Option<ServerRequest>) -> (res: (ServerReply, bool))
    ensures
        match outcome(request) {
            Ok(prime) => {
                &&& res.0.method@ == VALID_METHOD@
                &&& res.0.prime == prime
                &&& res.1
            },
            Err(_) => {
                &&& res.0.method@ == INVALID_METHOD@
                &&& !res.0.prime
                &&& !res.1
            },
        },
{
    let checked = match &request {
        Some(r) => check_well_formated_request(r),
        None => Err(RequestError::InvalidPayload),
    };
    match checked {
        Ok(prime) => (ServerReply { method: String::from_str(VALID_METHOD), prime }, true),
        Err(_) => (ServerReply { method: String::from_str(INVALID_METHOD), prime: false }, false),
    }
}

/// The size that a connection's buffer starts with.
pub const INITIAL_CAPACITY: usize = 1024;

/// The largest size at which a buffer may still be doubled.
pub const CAPACITY_LIMIT: usize = 32768;

/// The state of a connection's buffer: the bytes received and not yet
/// served, the size of the buffer, and whether the next turn begins with a
/// read.
pub struct BufferView {
    pub pending: Seq<u8>,
    pub capacity: nat,
    pub reading: bool,
}

/// What a turn of the buffer comes to.
pub enum Turn {
    /// A request is complete: these are its bytes, without the newline.
    Line(Seq<u8>),
    /// No request is complete yet: take another turn.
    Again,
    /// The conversation is over.
    Stop,
    /// The request in progress has outgrown the largest buffer.
    TooBig,
}

/// One turn of the buffer.
///
/// `data` is what the read brought, `None` where it failed; a turn that
/// begins without a read proceeds as if nothing had been read. With nothing
/// pending and nothing read the conversation is over, and so it is after a
/// failed read. Otherwise the bytes read are added. If a newline is now
/// pending, what stands before the first one is the next request. If none
/// is, the buffer is doubled and the next turn reads, unless the buffer is
/// over the limit already.
pub open spec fn turned(buffer: BufferView, data: Option<Seq<u8>>) -> (BufferView, Turn) {
    let brought = if buffer.reading {
        data
    } else {
        Some(Seq::empty())
    };
    match brought {
        None => (buffer, Turn::Stop),
        Some(bytes) => if buffer.pending.len() == 0 && bytes.len() == 0 {
            (buffer, Turn::Stop)
        } else {
            let pending = buffer.pending + bytes;
            match pending.index_of_first(NEWLINE) {
                Some(end) => (
                    BufferView { pending, capacity: buffer.capacity, reading: buffer.reading },
                    Turn::Line(pending.take(end)),
                ),
                None => if buffer.capacity > CAPACITY_LIMIT {
                    (
                        BufferView { pending, capacity: buffer.capacity, reading: buffer.reading },
                        Turn::TooBig,
                    )
                } else {
                    (
                        BufferView { pending, capacity: buffer.capacity * 2, reading: true },
                        Turn::Again,
                    )
                },
            }
        },
    }
}

/// The buffer after the request at its front has been answered: a request
/// that was served leaves the buffer with its newline, one that was not
/// stays. The next turn reads only where nothing is pending.
pub open spec fn settled(buffer: BufferView, served: bool) -> BufferView {
    let pending = match buffer.pending.index_of_first(NEWLINE) {
        Some(end) => if served {
            buffer.pending.skip(end + 1)
        } else {
            buffer.pending
        },
        None => buffer.pending,
    };
    BufferView { pending, capacity: buffer.capacity, reading: pending.len() == 0 }
}

/// What a turn of the buffer comes to, as the caller receives it.
#[derive(Clone, Debug, PartialEq, Eq)]
pub enum Step {
    /// A request is complete: these are its bytes, without the newline.
    /// Answer it and call [`RequestBuffer::settle`].
    Line(Vec<u8>),
    /// No request is complete yet: take another turn.
    Again,
    /// The conversation is over.
    Stop,
    /// The request in progress has outgrown the largest buffer.
    TooBig,
}

impl View for Step {
    type V = Turn;

    open spec fn view(&self) -> Turn {
        match *self {
            Step::Line(bytes) => Turn::Line(bytes@),
            Step::Again => Turn::Again,
            Step::Stop => Turn::Stop,
            Step::TooBig => Turn::TooBig,
        }
    }
}

/// The buffer of one connection: it gathers what is read until a request
/// is complete, and grows while none is.
pub struct RequestBuffer {
    pending: Vec<u8>,
    capacity: usize,
    reading: bool,
}

impl View for RequestBuffer {
    type V = BufferView;

    closed spec fn view(&self) -> BufferView {
        BufferView {
            pending: self.pending@,
            capacity: self.capacity as nat,
            reading: self.reading,
        }
    }
}

/// The index of the first newline in `bytes`, if there is one.
fn first_newline(bytes: &Vec<u8>) -> (pos: Option<usize>)
    ensures
        match pos {
            Some(i) => {
                &&& bytes@.index_of_first(NEWLINE) == Some(i as int)
                &&& i < bytes@.len() <= usize::MAX
            },
            None => bytes@.index_of_first(NEWLINE) is None,
        },
{
    let mut i: usize = 0;
    while i < bytes.len()
        invariant
            0 <= i <= bytes@.len(),
            forall|j: int| 0 <= j < i ==> bytes@[j] != NEWLINE,
        decreases bytes.len() - i,
    {
        if bytes[i] == NEWLINE {
            proof {
                bytes@.index_of_first_ensures(NEWLINE);
                assert(bytes@[i as int] == NEWLINE);
                assert(bytes@.contains(NEWLINE));
            }
            return Some(i);
        }
        i += 1;
    }
    proof {
        bytes@.index_of_first_ensures(NEWLINE);
        if bytes@.contains(NEWLINE) {
            let j = choose|j: int| 0 <= j < bytes@.len() && bytes@[j] == NEWLINE;
            assert(bytes@[j] != NEWLINE);
        }
    }
    None
}

impl RequestBuffer {
    /// The buffer of a fresh connection.
    pub fn new() -> (buffer: RequestBuffer)
        ensures
            buffer@ == (BufferView {
                pending: Seq::empty(),
                capacity: INITIAL_CAPACITY as nat,
                reading: true,
            }),
    {
        RequestBuffer { pending: Vec::new(), capacity: INITIAL_CAPACITY, reading: true }
    }

    /// How the next turn begins: with a read of at most so many bytes, or,
    /// for `None`, without one.
    pub fn wanted(&self) -> (room: Option<usize>)
        ensures
            room == if self@.reading {
                Some(
                    if self@.pending.len() < self@.capacity {
                        (self@.capacity - self@.pending.len()) as usize
                    } else {
                        0usize
                    },
                )
            } else {
                None::<usize>
            },
    {
        if !self.reading {
            None
        } else if self.pending.len() < self.capacity {
            Some(self.capacity - self.pending.len())
        } else {
            Some(0)
        }
    }

    /// Takes a turn, as [`turned`] says. `read` is what the read returned;
    /// it is not looked at where the turn begins without one.
    pub fn turn(&mut self, read: ReadOutcome) -> (step: Step)
        ensures
            (final(self)@, step@) == turned(old(self)@, read.data()),
    {
        let mut bytes: Vec<u8> = Vec::new();
        if self.reading {
            match read {
                ReadOutcome::Data(data) => {
                    bytes = data;
                },
                ReadOutcome::Closed => {},
                ReadOutcome::Failed => {
                    return Step::Stop;
                },
            }
        }
        if self.pending.len() == 0 && bytes.len() == 0 {
            return Step::Stop;
        }
        self.pending.append(&mut bytes);
        match first_newline(&self.pending) {
            Some(end) => {
                let mut line: Vec<u8> = Vec::new();
                let mut i: usize = 0;
                while i < end
                    invariant
                        0 <= i <= end < self.pending@.len(),
                        line@ == self.pending@.take(i as int),
                    decreases end - i,
                {
                    line.push(self.pending[i]);
                    assert(self.pending@.take(i + 1) =~= self.pending@.take(i as int).push(
                        self.pending@[i as int],
                    ));
                    i += 1;
                }
                Step::Line(line)
            },
            None => {
                if self.capacity > CAPACITY_LIMIT {
                    Step::TooBig
                } else {
                    self.capacity = self.capacity * 2;
                    self.reading = true;
                    Step::Again
                }
            },
        }
    }

    /// Settles the request at the front once it has been answered, as
    /// [`settled`] says, and returns whether the conversation goes on: it
    /// does exactly where the request was served.
    pub fn settle(&mut self, served: bool) -> (goes_on: bool)
        ensures
            final(self)@ == settled(old(self)@, served),
            goes_on == served,
    {
        if served {
            match first_newline(&self.pending) {
                Some(end) => {
                    let rest = self.pending.split_off(end + 1);
                    self.pending = rest;
                    assert(self.pending@ =~= old(self)@.pending.skip(end + 1));
                },
                None => {},
            }
        }
        self.reading = self.pending.len() == 0;
        served
    }
}

} // verus!
