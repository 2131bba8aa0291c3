//! A store of timestamped prices, queried for the mean over a period.
//!
//! A client sends commands of nine bytes: a kind, `I` or `Q`, and two
//! big-endian 32-bit integers in two's complement. An insert records a price
//! at a timestamp; a query asks for the mean price between two timestamps
//! and is answered with four bytes.

use std::collections::HashMap;
use vstd::prelude::*;
use vstd::slice::slice_subrange;
use vstd::std_specs::hash::spec_hash_map_iter;
use vstd::std_specs::iter::IteratorSpec;

verus! {

/// The kind of a command, from its first byte.
#[derive(Clone, Copy, Debug, PartialEq, Eq, Structural)]
pub enum CommandType {
    Query,
    Insert,
    Invalid,
}

impl CommandType {
    /// The kind that a first byte stands for.
    pub open spec fn of_byte(data: u8) -> CommandType {
        if data == 0x49 {
            CommandType::Insert
        } else if data == 0x51 {
            CommandType::Query
        } else {
            CommandType::Invalid
        }
    }

    /// Reads the kind off a command's first byte: `I` inserts, `Q` queries,
    /// everything else is invalid.
    pub fn parse(data: u8) -> (kind: CommandType)
        ensures
            kind == CommandType::of_byte(data),
    {
        if data == 0x49 {
            CommandType::Insert
        } else if data == 0x51 {
            CommandType::Query
        } else {
            CommandType::Invalid
        }
    }
}

/// The unsigned number that four bytes spell, most significant byte first.
pub open spec fn be_u32(data: Seq<u8>) -> int {
    data[0] as int * 0x100_0000 + data[1] as int * 0x1_0000 + data[2] as int * 0x100
        + data[3] as int
}

/// The signed number that four bytes spell in two's complement, most
/// significant byte first.
pub open spec fn be_i32(data: Seq<u8>) -> int {
    if be_u32(data) >= 0x8000_0000 {
        be_u32(data) - 0x1_0000_0000
    } else {
        be_u32(data)
    }
}

/// Reads four bytes as a big-endian `i32`.
pub fn slice_to_i32_be(data: &[u8]) -> (value: i32)
    requires
        data@.len() == 4,
    ensures
        value == be_i32(data@),
{
    let unsigned: i64 = (data[0] as i64) * 0x100_0000 + (data[1] as i64) * 0x1_0000 + (
    data[2] as i64) * 0x100 + (data[3] as i64);
    if unsigned >= 0x8000_0000 {
        (unsigned - 0x1_0000_0000) as i32
    } else {
        unsigned as i32
    }
}

/// The four bytes that spell `value` in two's complement, most significant
/// byte first.
pub open spec fn i32_be(value: i32) -> Seq<u8> {
    let unsigned: int = if value < 0 {
        value + 0x1_0000_0000
    } else {
        value as int
    };
    seq![
        (unsigned / 0x100_0000) as u8,
        (unsigned / 0x1_0000 % 0x100) as u8,
        (unsigned / 0x100 % 0x100) as u8,
        (unsigned % 0x100) as u8,
    ]
}

/// Reading back what [`i32_be`] spells gives the number again.
pub proof fn lemma_i32_be_round_trip(value: i32)
    ensures
        i32_be(value).len() == 4,
        be_i32(i32_be(value)) == value,
{
}

/// A command of nine bytes.
#[derive(Clone, Copy, Debug, PartialEq, Eq, Structural)]
pub struct Command {
    pub c_type: CommandType,
    pub first_number: i32,
    pub second_number: i32,
}

/// The answer to a query.
#[derive(Clone, Copy, Debug, PartialEq, Eq, Structural)]
pub struct Response {
    pub value: i32,
}

impl Response {
    /// The four bytes of the answer.
    pub fn to_bytes(&self) -> (bytes: [u8; 4])
        ensures
            bytes@ == i32_be(self.value),
    {
        let unsigned: i64 = if self.value < 0 {
            self.value as i64 + 0x1_0000_0000
        } else {
            self.value as i64
        };
        let bytes = [
            (unsigned / 0x100_0000) as u8,
            (unsigned / 0x1_0000 % 0x100) as u8,
            (unsigned / 0x100 % 0x100) as u8,
            (unsigned % 0x100) as u8,
        ];
        assert(bytes@ =~= i32_be(self.value));
        bytes
    }
}

/// The price recorded at timestamp `t`, or nothing.
pub open spec fn price_at(prices: Map<i32, i32>, t: int) -> int {
    if i32::MIN <= t <= i32::MAX && prices.contains_key(t as i32) {
        prices[t as i32] as int
    } else {
        0
    }
}

/// Whether a price is recorded at timestamp `t`, as a number.
pub open spec fn recorded_at(prices: Map<i32, i32>, t: int) -> int {
    if i32::MIN <= t <= i32::MAX && prices.contains_key(t as i32) {
        1
    } else {
        0
    }
}

/// The sum of the prices recorded at the timestamps `lo..=hi`.
pub open spec fn total_in_range(prices: Map<i32, i32>, lo: int, hi: int) -> int
    decreases hi - lo + 1,
{
    if lo > hi {
        0
    } else {
        total_in_range(prices, lo, hi - 1) + price_at(prices, hi)
    }
}

/// The number of prices recorded at the timestamps `lo..=hi`.
pub open spec fn count_in_range(prices: Map<i32, i32>, lo: int, hi: int) -> int
    decreases hi - lo + 1,
{
    if lo > hi {
        0
    } else {
        count_in_range(prices, lo, hi - 1) + recorded_at(prices, hi)
    }
}

/// The quotient rounded towards zero.
pub open spec fn quotient_towards_zero(n: int, d: int) -> int {
    if n >= 0 {
        n / d
    } else {
        -((-n) / d)
    }
}

/// The mean of the prices recorded at the timestamps `lo..=hi`, rounded
/// towards zero; 0 where there is none.
pub open spec fn mean_in_range(prices: Map<i32, i32>, lo: int, hi: int) -> int {
    if count_in_range(prices, lo, hi) == 0 {
        0
    } else {
        quotient_towards_zero(total_in_range(prices, lo, hi), count_in_range(prices, lo, hi))
    }
}

/// The prices after an insert: the first price recorded at a timestamp
/// stays.
pub open spec fn recorded(prices: Map<i32, i32>, timestamp: i32, price: i32) -> Map<i32, i32> {
    if prices.contains_key(timestamp) {
        prices
    } else {
        prices.insert(timestamp, price)
    }
}

/// The sum of the prices of `entries` whose timestamp lies in `lo..=hi`.
spec fn listed_total(entries: Seq<(i32, i32)>, lo: int, hi: int) -> int
    decreases entries.len(),
{
    if entries.len() == 0 {
        0
    } else {
        listed_total(entries.drop_last(), lo, hi) + if lo <= entries.last().0 <= hi {
            entries.last().1 as int
        } else {
            0
        }
    }
}

/// The number of `entries` whose timestamp lies in `lo..=hi`.
spec fn listed_count(entries: Seq<(i32, i32)>, lo: int, hi: int) -> int
    decreases entries.len(),
{
    if entries.len() == 0 {
        0
    } else {
        listed_count(entries.drop_last(), lo, hi) + if lo <= entries.last().0 <= hi {
            1int
        } else {
            0
        }
    }
}

/// The map that lists `entries`.
spec fn listed(entries: Seq<(i32, i32)>) -> Map<i32, i32>
    decreases entries.len(),
{
    if entries.len() == 0 {
        Map::empty()
    } else {
        listed(entries.drop_last()).insert(entries.last().0, entries.last().1)
    }
}

/// No timestamp occurs twice among `entries`.
spec fn distinct_timestamps(entries: Seq<(i32, i32)>) -> bool {
    forall|i: int, j: int|
        0 <= i < j < entries.len() ==> (#[trigger] entries[i]).0 != (#[trigger] entries[j]).0
}

proof fn lemma_record_fresh(prices: Map<i32, i32>, t: i32, price: i32, lo: int, hi: int)
    requires
        !prices.contains_key(t),
    ensures
        total_in_range(prices.insert(t, price), lo, hi) == total_in_range(prices, lo, hi) + if lo
            <= t <= hi {
            price as int
        } else {
            0
        },
        count_in_range(prices.insert(t, price), lo, hi) == count_in_range(prices, lo, hi) + if lo
            <= t <= hi {
            1int
        } else {
            0
        },
    decreases hi - lo + 1,
{
    if lo <= hi {
        lemma_record_fresh(prices, t, price, lo, hi - 1);
    }
}

proof fn lemma_listed(entries: Seq<(i32, i32)>, lo: int, hi: int)
    requires
        distinct_timestamps(entries),
    ensures
        listed_total(entries, lo, hi) == total_in_range(listed(entries), lo, hi),
        listed_count(entries, lo, hi) == count_in_range(listed(entries), lo, hi),
        forall|t: i32|
            listed(entries).contains_key(t) <==> exists|i: int|
                0 <= i < entries.len() && (#[trigger] entries[i]).0 == t,
        forall|i: int|
            0 <= i < entries.len() ==> listed(entries)[(#[trigger] entries[i]).0] == entries[i].1,
    decreases entries.len(),
{
    if entries.len() == 0 {
        lemma_empty_range(lo, hi);
    } else {
        let front = entries.drop_last();
        let last = entries.last();
        assert forall|i: int, j: int| 0 <= i < j < front.len() implies (#[trigger] front[i]).0 != (
        #[trigger] front[j]).0 by {
            assert(entries[i].0 != entries[j].0);
        }
        lemma_listed(front, lo, hi);
        if listed(front).contains_key(last.0) {
            let i = choose|i: int| 0 <= i < front.len() && (#[trigger] front[i]).0 == last.0;
            assert(entries[i].0 != entries[entries.len() - 1].0);
        }
        lemma_record_fresh(listed(front), last.0, last.1, lo, hi);
        assert forall|t: i32|
            listed(entries).contains_key(t) <==> exists|i: int|
                0 <= i < entries.len() && (#[trigger] entries[i]).0 == t by {
            if listed(entries).contains_key(t) {
                if t == last.0 {
                    assert(entries[entries.len() - 1].0 == t);
                } else {
                    let i = choose|i: int| 0 <= i < front.len() && (#[trigger] front[i]).0 == t;
                    assert(entries[i].0 == t);
                }
            }
            if exists|i: int| 0 <= i < entries.len() && (#[trigger] entries[i]).0 == t {
                let i = choose|i: int| 0 <= i < entries.len() && (#[trigger] entries[i]).0 == t;
                if i < front.len() {
                    assert(front[i].0 == t);
                }
            }
        }
        assert forall|i: int| 0 <= i < entries.len() implies listed(entries)[(
        #[trigger] entries[i]).0] == entries[i].1 by {
            if i < front.len() {
                assert(front[i] == entries[i]);
                assert(entries[i].0 != entries[entries.len() - 1].0);
            }
        }
    }
}

proof fn lemma_empty_range(lo: int, hi: int)
    ensures
        total_in_range(Map::<i32, i32>::empty(), lo, hi) == 0,
        count_in_range(Map::<i32, i32>::empty(), lo, hi) == 0,
    decreases hi - lo + 1,
{
    if lo <= hi {
        lemma_empty_range(lo, hi - 1);
    }
}

/// A period holds at most one price for each of its timestamps, and each
/// price is a 32-bit number: this bounds the count and the sum.
pub proof fn lemma_range_bounds(prices: Map<i32, i32>, lo: int, hi: int)
    ensures
        0 <= count_in_range(prices, lo, hi),
        lo <= hi ==> count_in_range(prices, lo, hi) <= hi - lo + 1,
        lo > hi ==> count_in_range(prices, lo, hi) == 0,
        -0x8000_0000 * count_in_range(prices, lo, hi) <= total_in_range(prices, lo, hi)
            <= 0x7fff_ffff * count_in_range(prices, lo, hi),
    decreases hi - lo + 1,
{
    if lo <= hi {
        lemma_range_bounds(prices, lo, hi - 1);
    }
}

impl Command {
    /// The command that nine bytes spell.
    pub open spec fn of_bytes(data: Seq<u8>) -> Command {
        Command {
            c_type: CommandType::of_byte(data[0]),
            first_number: be_i32(data.subrange(1, 5)) as i32,
            second_number: be_i32(data.subrange(5, 9)) as i32,
        }
    }

    /// Reads a command: the kind from the first byte, then the two numbers.
    pub fn parse(data: &[u8; 9]) -> (command: Command)
        ensures
            command == Command::of_bytes(data@),
    {
        let bytes = data.as_slice();
        let c_type = CommandType::parse(bytes[0]);
        let first_number = slice_to_i32_be(slice_subrange(bytes, 1, 5));
        let second_number = slice_to_i32_be(slice_subrange(bytes, 5, 9));
        Command { c_type, first_number, second_number }
    }

    /// Carries the command out on the store.
    ///
    /// A query leaves the store alone and is answered with the mean of the
    /// prices from `first_number` to `second_number`, both included. An
    /// insert records `second_number` as the price at `first_number` unless
    /// one is recorded there, and is not answered. An invalid command does
    /// nothing.
    pub fn generate_response(&self, datastore: &mut HashMap<i32, i32>) -> (response: Option<
        Response,
    >)
        ensures
            match self.c_type {
                CommandType::Query => {
                    &&& final(datastore)@ == old(datastore)@
                    &&& response matches Some(r)
                    &&& r.value == mean_in_range(
                        old(datastore)@,
                        self.first_number as int,
                        self.second_number as int,
                    )
                },
                CommandType::Insert => {
                    &&& final(datastore)@ == recorded(
                        old(datastore)@,
                        self.first_number,
                        self.second_number,
                    )
                    &&& response is None
                },
                CommandType::Invalid => final(datastore)@ == old(datastore)@ && response is None,
            },
    {
        broadcast use vstd::std_specs::hash::group_hash_axioms;

        match self.c_type {
            CommandType::Query => {
                let value = mean_price(datastore, self.first_number, self.second_number);
                Some(Response { value })
            },
            CommandType::Insert => {
                if !datastore.contains_key(&self.first_number) {
                    datastore.insert(self.first_number, self.second_number);
                }
                None
            },
            CommandType::Invalid => None,
        }
    }
}

/// The entries that a walk over the store visits list the store, each
/// timestamp once.
proof fn lemma_walk_lists_store(datastore: &HashMap<i32, i32>, entries: Seq<(i32, i32)>)
    requires
        entries == spec_hash_map_iter(datastore).remaining().unref(),
        spec_hash_map_iter(datastore).remaining().no_duplicates(),
    ensures
        distinct_timestamps(entries),
        listed(entries) == datastore@,
{
    broadcast use vstd::std_specs::hash::group_hash_axioms;

    let refs = spec_hash_map_iter(datastore).remaining();
    let prices = datastore@;
    assert forall|i: int| 0 <= i < entries.len() implies prices.contains_key(
        (#[trigger] entries[i]).0,
    ) && prices[entries[i].0] == entries[i].1 by {
        assert(prices.contains_key(*refs[i].0));
        assert(prices[*refs[i].0] == *refs[i].1);
    }
    assert forall|i: int, j: int| 0 <= i < j < entries.len() implies (#[trigger] entries[i]).0 != (
    #[trigger] entries[j]).0 by {
        if entries[i].0 == entries[j].0 {
            assert(refs[i] == refs[j]);
        }
    }
    lemma_listed(entries, 0, 0);
    assert forall|t: i32| prices.contains_key(t) implies listed(entries).contains_key(t) by {
        let pair = (&t, &prices[t]);
        assert(refs.contains(pair));
        let i = choose|i: int| 0 <= i < refs.len() && refs[i] == pair;
        assert(entries[i].0 == t);
    }
    assert forall|t: i32| listed(entries).contains_key(t) implies prices.contains_key(t)
        && listed(entries)[t] == prices[t] by {
        let i = choose|i: int| 0 <= i < entries.len() && (#[trigger] entries[i]).0 == t;
        assert(listed(entries)[entries[i].0] == entries[i].1);
    }
    assert(listed(entries) =~= prices);
}

/// The mean of the prices recorded from `earliest` to `latest`.
fn mean_price(datastore: &HashMap<i32, i32>, earliest: i32, latest: i32) -> (mean: i32)
    ensures
        mean == mean_in_range(datastore@, earliest as int, latest as int),
{
    broadcast use vstd::std_specs::hash::group_hash_axioms;

    let mut sum: i64 = 0;
    let mut count: i64 = 0;
    let ghost lo = earliest as int;
    let ghost hi = latest as int;
    let walk = datastore.iter();
    let ghost entries = walk.remaining().unref();
    proof {
        lemma_walk_lists_store(datastore, entries);
    }
    for pair in it: walk
        invariant
            lo == earliest as int,
            hi == latest as int,
            it.seq().unref() == entries,
            distinct_timestamps(entries),
            sum == listed_total(entries.take(it.index()), lo, hi),
            count == listed_count(entries.take(it.index()), lo, hi),
    {
        let (k, v) = pair;
        let ghost prefix = entries.take(it.index() + 1);
        proof {
            assert(prefix.drop_last() =~= entries.take(it.index()));
            assert(prefix.last() == (*k, *v));
            assert forall|i: int, j: int| 0 <= i < j < prefix.len() implies (#[trigger] prefix[i]).0
                != (#[trigger] prefix[j]).0 by {
                assert(entries[i].0 != entries[j].0);
            }
            lemma_listed(prefix, lo, hi);
            lemma_range_bounds(listed(prefix), lo, hi);
        }
        if earliest <= *k && *k <= latest {
            sum = sum + (*v as i64);
            count = count + 1;
        }
    }
    proof {
        assert(entries.take(entries.len() as int) =~= entries);
        lemma_listed(entries, lo, hi);
        lemma_range_bounds(datastore@, lo, hi);
    }
    if count == 0 {
        0
    } else {
        let total = sum as i128;
        let n = count as i128;
        let mean: i128 = if total >= 0 {
            total / n
        } else {
            -((-total) / n)
        };
        proof {
            let t = total as int;
            let c = n as int;
            let m = mean as int;
            assert(-0x8000_0000 <= m <= 0x7fff_ffff) by (nonlinear_arith)
                requires
                    c > 0,
                    -0x8000_0000 * c <= t <= 0x7fff_ffff * c,
                    m == if t >= 0 {
                        t / c
                    } else {
                        -((-t) / c)
                    },
            ;
        }
        mean as i32
    }
}

/// The store after a command.
pub open spec fn store_after(prices: Map<i32, i32>, command: Command) -> Map<i32, i32> {
    match command.c_type {
        CommandType::Insert => recorded(prices, command.first_number, command.second_number),
        _ => prices,
    }
}

/// The bytes that answer a command: four for a query, none otherwise.
pub open spec fn answer_to(prices: Map<i32, i32>, command: Command) -> Seq<u8> {
    match command.c_type {
        CommandType::Query => i32_be(
            mean_in_range(prices, command.first_number as int, command.second_number as int) as i32,
        ),
        _ => Seq::empty(),
    }
}

/// The state of a client's session: its store, and the bytes of a command
/// that has begun to arrive.
pub struct SessionView {
    pub prices: Map<i32, i32>,
    pub partial: Seq<u8>,
}

/// A session after it has received `chunk`, and the bytes that answer it.
///
/// The bytes are taken one by one. Every ninth completes a command, which
/// is carried out at once; the answers follow one another in the order of
/// the commands.
pub open spec fn received(session: SessionView, chunk: Seq<u8>) -> (SessionView, Seq<u8>)
    decreases chunk.len(),
{
    if chunk.len() == 0 {
        (session, Seq::empty())
    } else {
        let grown = session.partial.push(chunk[0]);
        if grown.len() < 9 {
            received(SessionView { prices: session.prices, partial: grown }, chunk.drop_first())
        } else {
            let command = Command::of_bytes(grown);
            let next = SessionView {
                prices: store_after(session.prices, command),
                partial: Seq::empty(),
            };
            let (end, answers) = received(next, chunk.drop_first());
            (end, answer_to(session.prices, command) + answers)
        }
    }
}

/// One client's session with the store. Each client has a store of its own.
pub struct Session {
    datastore: HashMap<i32, i32>,
    partial: Vec<u8>,
}

impl View for Session {
    type V = SessionView;

    closed spec fn view(&self) -> SessionView {
        SessionView { prices: self.datastore@, partial: self.partial@ }
    }
}

impl Session {
    /// A session with an empty store.
    pub fn new() -> (session: Session)
        ensures
            session@ == (SessionView { prices: Map::empty(), partial: Seq::empty() }),
    {
        broadcast use vstd::std_specs::hash::group_hash_axioms;

        Session { datastore: HashMap::new(), partial: Vec::new() }
    }

    /// Takes the bytes that a read brought and returns the bytes to send
    /// back, as [`received`] says.
    pub fn receive(&mut self, chunk: &[u8]) -> (answers: Vec<u8>)
        ensures
            (final(self)@, answers@) == received(old(self)@, chunk@),
    {
        let mut answers: Vec<u8> = Vec::new();
        let mut i: usize = 0;
        assert(chunk@.skip(0) =~= chunk@);
        while i < chunk.len()
            invariant
                0 <= i <= chunk.len(),
                received(old(self)@, chunk@) == ({
                    let (end, rest) = received(self@, chunk@.skip(i as int));
                    (end, answers@ + rest)
                }),
            decreases chunk.len() - i,
        {
            let ghost before = self@;
            let ghost sent = answers@;
            let ghost rest = chunk@.skip(i as int);
            proof {
                assert(rest.drop_first() =~= chunk@.skip(i + 1));
                assert(rest[0] == chunk@[i as int]);
            }
            self.partial.push(chunk[i]);
            if self.partial.len() >= 9 {
                let p = &self.partial;
                let data: [u8; 9] = [p[0], p[1], p[2], p[3], p[4], p[5], p[6], p[7], p[8]];
                let command = Command::parse(&data);
                proof {
                    assert(data@.subrange(1, 5) =~= self.partial@.subrange(1, 5));
                    assert(data@.subrange(5, 9) =~= self.partial@.subrange(5, 9));
                    assert(command == Command::of_bytes(self.partial@));
                }
                match command.generate_response(&mut self.datastore) {
                    Some(response) => {
                        let bytes = response.to_bytes();
                        let mut j: usize = 0;
                        while j < 4
                            invariant
                                0 <= j <= 4,
                                bytes@ == i32_be(response.value),
                                answers@ == sent + bytes@.take(j as int),
                            decreases 4 - j,
                        {
                            answers.push(bytes[j]);
                            assert(bytes@.take(j + 1) =~= bytes@.take(j as int).push(
                                bytes@[j as int],
                            ));
                            j += 1;
                        }
                        assert(bytes@.take(4) =~= bytes@);
                    },
                    None => {},
                }
                self.partial.clear();
                proof {
                    let (end, more) = received(self@, chunk@.skip(i + 1));
                    assert(answers@ == sent + answer_to(before.prices, command));
                    assert(answers@ + more =~= sent + (answer_to(before.prices, command) + more));
                }
            }
            i += 1;
        }
        proof {
            assert(chunk@.skip(chunk@.len() as int) =~= Seq::<u8>::empty());
            assert(answers@ + Seq::<u8>::empty() =~= answers@);
        }
        answers
    }
}

} // verus!
