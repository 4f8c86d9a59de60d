//! What a guppy server decides: which requests it reads, how a success is
//! cut into numbered packets, which packets go out within the window, and
//! what an acknowledgement settles. The socket and the clock are the
//! caller's.
use std::collections::BTreeSet;
use std::collections::hash_map::DefaultHasher;
use std::hash::{BuildHasher, Hasher, RandomState};

use vstd::prelude::*;
use vstd::utf8::encode_utf8;

use crate::bytes::{copy_range, lossy_text, string_from_utf8_lossy};
use crate::guppy::packet::{encode_continuation, encode_first, wire};
use crate::guppy::{GuppyResponse, MAX_SEQ, MIN_SEQ};
use crate::text::{chars_of, decimal, eq_str, string_of, trim, trimmed};
use crate::urls::{parse_url, pct_decode, percent_decode, url_parse};

verus! {

broadcast use {vstd::std_specs::btree::group_btree_axioms, vstd::laws_cmp::group_laws_cmp};

/// What a request line asks for: its path (`/` when empty) and the input
/// its query carries, percent-decoded.
pub open spec fn spec_parse_request(line: Seq<char>) -> Option<(Seq<char>, Option<Seq<char>>)> {
    match url_parse(trim(line)) {
        Err(_) => None,
        Ok(u) => if u.0 != "guppy"@ {
            None
        } else {
            Some(
                (
                    if u.3.len() == 0 {
                        seq!['/']
                    } else {
                        u.3
                    },
                    match u.4 {
                        Some(q) => Some(lossy_text(pct_decode(encode_utf8(q)))),
                        None => None,
                    },
                ),
            )
        },
    }
}

/// Reads a request line: a `guppy://` URL, trimmed.
pub fn parse_request(line: &str) -> (r: Option<(String, Option<String>)>)
    ensures
        match spec_parse_request(line@) {
            Some((p, i)) => r matches Some((p2, i2)) && p2@ == p && crate::text::opt_view(i2)
                == i,
            None => r is None,
        },
{
    let t = string_of(trimmed(chars_of(line).as_slice()).as_slice());
    let parts = match parse_url(t.as_str()) {
        Ok(p) => p,
        Err(_) => return None,
    };
    proof {
        reveal_strlit("guppy");
    }
    if !eq_str(chars_of(parts.scheme.as_str()).as_slice(), "guppy") {
        return None;
    }
    let path = if chars_of(parts.path.as_str()).len() == 0 {
        let mut v: Vec<char> = Vec::new();
        v.push('/');
        string_of(v.as_slice())
    } else {
        parts.path.clone()
    };
    let input = match &parts.query {
        Some(q) => Some(string_from_utf8_lossy(percent_decode(q.as_str()).as_slice())),
        None => None,
    };
    Some((path, input))
}

/// The reply to a request line that is not a guppy URL.
pub const MALFORMED_REQUEST_REPLY: &'static str = "4 Malformed request URL.\r\n";

/// A response that is a single special packet: its digit, a space, its
/// text, CRLF. A success is none.
pub fn special_packet(response: &GuppyResponse) -> (r: Option<Vec<u8>>)
    ensures
        match *response {
            GuppyResponse::Success { .. } => r is None,
            GuppyResponse::Prompt { text } => r matches Some(b) && b@ == wire(
                seq!['1', ' '] + text@,
                seq![],
            ),
            GuppyResponse::Redirect { target } => r matches Some(b) && b@ == wire(
                seq!['3', ' '] + target@,
                seq![],
            ),
            GuppyResponse::Error { message } => r matches Some(b) && b@ == wire(
                seq!['4', ' '] + message@,
                seq![],
            ),
        },
{
    let (digit, text) = match response {
        GuppyResponse::Success { .. } => return None,
        GuppyResponse::Prompt { text } => ('1', text),
        GuppyResponse::Redirect { target } => ('3', target),
        GuppyResponse::Error { message } => ('4', message),
    };
    let mut line: Vec<char> = Vec::new();
    line.push(digit);
    line.push(' ');
    crate::text::append_chars(&mut line, chars_of(text.as_str()).as_slice());
    line.push('\r');
    line.push('\n');
    let s = string_of(line.as_slice());
    let mut out: Vec<u8> = Vec::new();
    crate::bytes::append_bytes(&mut out, s.as_str().as_bytes());
    proof {
        assert(line@ =~= seq![digit, ' '] + text@ + seq!['\r', '\n']);
        assert(out@ =~= wire(seq![digit, ' '] + text@, seq![]));
    }
    Some(out)
}

/// `std::time::SystemTime`, carried through as it is.
#[verifier::external_type_specification]
#[verifier::external_body]
pub struct ExSystemTime(std::time::SystemTime);

/// `SystemTime::now`: the clock's reading; nothing is promised of it.
#[verifier::external_body]
fn system_now() -> std::time::SystemTime {
    std::time::SystemTime::now()
}

/// `SystemTime::duration_since(UNIX_EPOCH)`: the time since the epoch, or
/// `None` for a reading before it; nothing is promised of which.
#[verifier::external_body]
fn since_epoch(t: &std::time::SystemTime) -> Option<std::time::Duration> {
    t.duration_since(std::time::UNIX_EPOCH).ok()
}

/// `Duration::as_nanos`: a duration in whole nanoseconds. `Duration` is
/// opaque here, so nothing is stated of the number.
#[verifier::external_body]
fn duration_nanos(d: &std::time::Duration) -> u128 {
    d.as_nanos()
}

/// `RandomState::new`: hashing keys drawn at random for the process;
/// nothing is promised of them.
#[verifier::external_body]
fn random_state() -> RandomState {
    RandomState::new()
}

/// `BuildHasher::build_hasher` on a `RandomState`: a hasher under the
/// state's random keys. Nothing is stated of it, since the hasher model of
/// vstd describes the fixed-key `DefaultHasher::new`.
#[verifier::external_body]
fn keyed_hasher(state: &RandomState) -> DefaultHasher {
    state.build_hasher()
}

/// The bytes of a number, least significant first.
pub open spec fn le_bytes(x: nat, n: nat) -> Seq<u8>
    decreases n,
{
    if n == 0 {
        seq![]
    } else {
        seq![(x % 256) as u8] + le_bytes(x / 256, (n - 1) as nat)
    }
}

/// The sixteen bytes of a `u128`, least significant first, as a hasher is
/// fed a `u128` on a little-endian machine.
fn u128_le_bytes(x: u128) -> (r: Vec<u8>)
    ensures
        r@ == le_bytes(x as nat, 16),
{
    let mut out: Vec<u8> = Vec::new();
    let mut rest: u128 = x;
    let mut i: usize = 0;
    while i < 16
        invariant
            i <= 16,
            out@ + le_bytes(rest as nat, (16 - i) as nat) == le_bytes(x as nat, 16),
        decreases 16 - i,
    {
        let ghost before = out@;
        let b: u8 = (rest % 256) as u8;
        assert(le_bytes(rest as nat, (16 - i) as nat) == seq![b] + le_bytes(
            (rest / 256) as nat,
            (16 - i - 1) as nat,
        ));
        out.push(b);
        assert(out@ + le_bytes((rest / 256) as nat, (16 - i - 1) as nat) =~= before + (seq![b]
            + le_bytes((rest / 256) as nat, (16 - i - 1) as nat)));
        rest = rest / 256;
        i = i + 1;
    }
    assert(out@ + le_bytes(rest as nat, 0) =~= out@);
    out
}

/// The time since the epoch in nanoseconds, or 0 for a clock before it.
fn clock_nanos() -> u128 {
    match since_epoch(&system_now()) {
        Some(d) => duration_nanos(&d),
        None => 0,
    }
}

/// A hash of a number under the process's random keys.
fn keyed_hash(x: u128) -> u64 {
    let state = random_state();
    let mut hasher = keyed_hasher(&state);
    let bytes = u128_le_bytes(x);
    hasher.write(bytes.as_slice());
    hasher.finish()
}

/// The first number that a draw `h` picks for a response of
/// `total_packets`: `h` folded into the numbers from `MIN_SEQ` up that
/// leave room for the whole response below `MAX_SEQ`.
pub open spec fn spec_first_seq(h: u64, total_packets: u32) -> int {
    MIN_SEQ + h % ((MAX_SEQ - total_packets - MIN_SEQ) as u64)
}

/// Folds a draw `h` into a first number for a response of
/// `total_packets`: `MIN_SEQ` plus `h` modulo the room there is.
pub fn first_seq_from(h: u64, total_packets: u32) -> (r: u32)
    requires
        total_packets < MAX_SEQ - MIN_SEQ,
    ensures
        r == spec_first_seq(h, total_packets),
        MIN_SEQ <= r < MAX_SEQ - total_packets,
{
    let span: u32 = MAX_SEQ - total_packets - MIN_SEQ;
    MIN_SEQ + (h % (span as u64)) as u32
}

/// A random first sequence number low enough that a response of
/// `total_packets` still ends within `MAX_SEQ`: the fold of a hash of the
/// time under the process's random keys. Which draw came is not stated.
pub fn random_seq(total_packets: u32) -> (r: u32)
    requires
        total_packets < MAX_SEQ - MIN_SEQ,
    ensures
        MIN_SEQ <= r < MAX_SEQ - total_packets,
        exists|h: u64| r == #[trigger] spec_first_seq(h, total_packets),
{
    let h = keyed_hash(clock_nanos());
    let r = first_seq_from(h, total_packets);
    assert(r == spec_first_seq(h, total_packets));
    r
}

/// The larger of a chunk size and one.
pub open spec fn chunk_of(c: usize) -> nat {
    if c == 0 {
        1
    } else {
        c as nat
    }
}

/// How many continuations carry data when a body of `n` bytes is cut every
/// `c` bytes and the first chunk rides in the first packet.
pub open spec fn continuations(n: int, c: int) -> int {
    if n > c {
        (n - 1) / c
    } else {
        0
    }
}

/// How many packets a body takes: the first, the continuations, the end.
pub open spec fn packet_count(len: nat, c: nat) -> nat {
    (continuations(len as int, c as int) + 2) as nat
}

/// Where the `i`th chunk of a body of `n` bytes cut every `c` bytes starts.
pub open spec fn offset_at(c: int, i: int, n: int) -> int {
    if c * i <= n {
        c * i
    } else {
        n
    }
}

/// The `i`th chunk of a body cut every `c` bytes.
pub open spec fn chunk(body: Seq<u8>, c: nat, i: nat) -> Seq<u8> {
    let from = if c * i <= body.len() {
        c * i
    } else {
        body.len() as nat
    };
    let to = if c * (i + 1) <= body.len() {
        c * (i + 1)
    } else {
        body.len() as nat
    };
    body.subrange(from as int, to as int)
}

/// A success response as packets: numbered from a first number up, the
/// first carrying the MIME type and the first chunk, each continuation the
/// next chunk, and an empty continuation at the end.
pub struct Session {
    /// Every packet of the response in number order: number and wire bytes.
    pub packets: Vec<(u32, Vec<u8>)>,
    /// The index of the next packet never yet sent.
    pub next_unsent: usize,
    /// Numbers sent but not yet acknowledged.
    pub unacked: BTreeSet<u32>,
}

impl Session {
    /// The packets carry consecutive numbers, the sent ones come first,
    /// and only sent packets await acknowledgement.
    pub open spec fn well_formed(&self) -> bool {
        &&& self.packets@.len() > 0
        &&& self.next_unsent <= self.packets@.len()
        &&& self.packets@[0].0 as int + self.packets@.len() <= MAX_SEQ as int + 1
        &&& forall|i: int|
            0 <= i < self.packets@.len() ==> (#[trigger] self.packets@[i]).0 == self.packets@[0].0
                + i
        &&& forall|s: u32|
            #[trigger] self.unacked@.contains(s) ==> self.packets@[0].0 <= s
                < self.packets@[0].0 + self.next_unsent
    }
}

/// Cuts a success into its packets, numbered from a random first number.
pub fn build_session(mime: &str, body: &[u8], chunk_size: usize) -> (r: Session)
    requires
        packet_count(body@.len(), chunk_of(chunk_size)) < MAX_SEQ - MIN_SEQ,
    ensures
        r.well_formed(),
        r.next_unsent == 0,
        r.unacked@.is_empty(),
        r.packets@.len() == packet_count(body@.len(), chunk_of(chunk_size)),
        MIN_SEQ <= r.packets@[0].0,
        exists|h: u64|
            r.packets@[0].0 == #[trigger] spec_first_seq(
                h,
                packet_count(body@.len(), chunk_of(chunk_size)) as u32,
            ),
        r.packets@[0].1@ == wire(
            decimal(r.packets@[0].0 as nat) + seq![' '] + mime@,
            chunk(body@, chunk_of(chunk_size), 0),
        ),
        forall|i: int|
            0 < i < r.packets@.len() - 1 ==> (#[trigger] r.packets@[i]).1@ == wire(
                decimal(r.packets@[i].0 as nat),
                chunk(body@, chunk_of(chunk_size), i as nat),
            ),
        r.packets@.last().1@ == wire(decimal(r.packets@.last().0 as nat), seq![]),
{
    let c: usize = if chunk_size == 0 {
        1
    } else {
        chunk_size
    };
    let n = body.len();
    let count: usize = if n > c {
        (n - 1) / c
    } else {
        0
    };
    assert(count == continuations(n as int, c as int));
    assert(count + 2 == packet_count(n as nat, c as nat));
    let total: u32 = (count + 2) as u32;
    let first = random_seq(total);
    let mut packets: Vec<(u32, Vec<u8>)> = Vec::new();
    let first_end = if n < c {
        n
    } else {
        c
    };
    assert(c * 0 == 0 && c * 1 == c) by (nonlinear_arith);
    let first_chunk = copy_range(body, 0, first_end);
    assert(first_chunk@ =~= chunk(body@, c as nat, 0));
    packets.push((first, encode_first(first, mime, first_chunk.as_slice())));
    let mut seq = first;
    let mut offset = first_end;
    let mut i: usize = 1;
    while offset < n
        invariant
            c >= 1,
            n == body@.len(),
            c == chunk_of(chunk_size),
            1 <= i <= count + 1,
            count + 2 == packet_count(n as nat, c as nat),
            offset == offset_at(c as int, i as int, n as int),
            count == continuations(n as int, c as int),
            (first as int) + count + 2 <= MAX_SEQ,
            seq == first + i - 1,
            packets@.len() == i,
            packets@[0].0 == first,
            packets@[0].1@ == wire(decimal(first as nat) + seq![' '] + mime@, chunk(body@, c as nat, 0)),
            forall|k: int| 0 <= k < i ==> (#[trigger] packets@[k]).0 == first + k,
            forall|k: int|
                0 < k < i ==> (#[trigger] packets@[k]).1@ == wire(
                    decimal(packets@[k].0 as nat),
                    chunk(body@, c as nat, k as nat),
                ),
        decreases n - offset,
    {
        proof {
            lemma_more_chunks(n as int, c as int, i as int);
        }
        seq = seq + 1;
        let end = if c <= n - offset {
            offset + c
        } else {
            n
        };
        let part = copy_range(body, offset, end);
        assert(c * (i + 1) == c * i + c) by (nonlinear_arith);
        assert(part@ =~= chunk(body@, c as nat, i as nat));
        packets.push((seq, encode_continuation(seq, part.as_slice())));
        offset = end;
        i = i + 1;
    }
    proof {
        lemma_no_more_chunks(n as int, c as int, i as int);
    }
    let empty: [u8; 0] = [];
    packets.push((seq + 1, encode_continuation(seq + 1, empty.as_slice())));
    assert(empty@ =~= Seq::<u8>::empty());
    Session { packets, next_unsent: 0, unacked: BTreeSet::new() }
}

/// While the cut has not reached the end, another continuation is due.
proof fn lemma_more_chunks(n: int, c: int, i: int)
    requires
        c >= 1,
        i >= 1,
        offset_at(c, i, n) < n,
    ensures
        i <= continuations(n, c),
{
    assert(c * i < n);
    assert(c <= c * i) by (nonlinear_arith)
        requires
            c >= 1,
            i >= 1,
    ;
    assert((n - 1) / c >= i) by (nonlinear_arith)
        requires
            c >= 1,
            c * i <= n - 1,
    ;
}

/// Once the cut reaches the end, every continuation is out.
proof fn lemma_no_more_chunks(n: int, c: int, i: int)
    requires
        c >= 1,
        n >= 0,
        1 <= i <= continuations(n, c) + 1,
        offset_at(c, i, n) >= n,
    ensures
        i == continuations(n, c) + 1,
{
    if n > c {
        assert(c * i >= n);
        assert((n - 1) / c < i) by (nonlinear_arith)
            requires
                c >= 1,
                c * i >= n,
                n >= 1,
        ;
    }
}

impl Session {
    /// The index of the packet to send next, if the window has room and a
    /// packet is left unsent.
    pub fn next_to_send(&self, window: usize) -> (r: Option<usize>)
        requires
            self.well_formed(),
        ensures
            r == (if self.unacked@.len() < window && self.next_unsent < self.packets@.len() {
                Some(self.next_unsent)
            } else {
                None::<usize>
            }),
    {
        if self.unacked.len() < window && self.next_unsent < self.packets.len() {
            Some(self.next_unsent)
        } else {
            None
        }
    }

    /// Records the next packet as sent and awaiting acknowledgement.
    pub fn mark_sent(&mut self)
        requires
            old(self).well_formed(),
            old(self).next_unsent < old(self).packets@.len(),
        ensures
            final(self).well_formed(),
            final(self).packets == old(self).packets,
            final(self).next_unsent == old(self).next_unsent + 1,
            final(self).unacked@ == old(self).unacked@.insert(
                old(self).packets@[old(self).next_unsent as int].0,
            ),
    {
        let seq = self.packets[self.next_unsent].0;
        self.unacked.insert(seq);
        self.next_unsent = self.next_unsent + 1;
    }

    /// Takes in an acknowledgement (a duplicate changes nothing) and says
    /// whether every packet is now sent and acknowledged.
    pub fn acknowledge(&mut self, seq: u32) -> (done: bool)
        requires
            old(self).well_formed(),
        ensures
            final(self).well_formed(),
            final(self).packets == old(self).packets,
            final(self).next_unsent == old(self).next_unsent,
            final(self).unacked@ == old(self).unacked@.remove(seq),
            done == (final(self).next_unsent == final(self).packets@.len()
                && final(self).unacked@.is_empty()),
    {
        self.unacked.remove(&seq);
        self.next_unsent == self.packets.len() && self.unacked.is_empty()
    }

    /// The packets awaiting acknowledgement, in number order, to send again.
    pub fn to_retransmit(&self) -> (r: Vec<usize>)
        requires
            self.well_formed(),
        ensures
            forall|k: int| 0 <= k < r@.len() ==> r@[k] < self.packets@.len()
                && self.unacked@.contains(self.packets@[r@[k] as int].0),
            forall|k: int, l: int| 0 <= k < l < r@.len() ==> r@[k] < r@[l],
            forall|i: int|
                0 <= i < self.packets@.len() && self.unacked@.contains(self.packets@[i].0)
                    ==> r@.contains(i as usize),
    {
        let mut out: Vec<usize> = Vec::new();
        let mut i: usize = 0;
        while i < self.packets.len()
            invariant
                self.well_formed(),
                i <= self.packets@.len(),
                forall|k: int| 0 <= k < out@.len() ==> out@[k] < i
                    && self.unacked@.contains(self.packets@[out@[k] as int].0),
                forall|k: int, l: int| 0 <= k < l < out@.len() ==> out@[k] < out@[l],
                forall|j: int|
                    0 <= j < i && self.unacked@.contains(self.packets@[j].0) ==> out@.contains(
                        j as usize,
                    ),
            decreases self.packets.len() - i,
        {
            if self.unacked.contains(&self.packets[i].0) {
                let ghost before = out@;
                out.push(i);
                assert forall|j: int|
                    0 <= j < i + 1 && self.unacked@.contains(self.packets@[j].0) implies out@.contains(
                    j as usize,
                ) by {
                    if j < i {
                        let k = choose|k: int| 0 <= k < before.len() && before[k] == j as usize;
                        assert(out@[k] == j as usize);
                    } else {
                        assert(out@[before.len() as int] == i);
                    }
                }
            }
            i = i + 1;
        }
        out
    }
}

/// The data of the first `k` chunks, one after another.
pub open spec fn chunks_upto(body: Seq<u8>, c: nat, k: nat) -> Seq<u8>
    decreases k,
{
    if k == 0 {
        seq![]
    } else {
        chunks_upto(body, c, (k - 1) as nat) + chunk(body, c, (k - 1) as nat)
    }
}

/// The first `k` chunks are the body up to `k` chunk lengths.
proof fn lemma_chunks_prefix(body: Seq<u8>, c: nat, k: nat)
    requires
        c >= 1,
    ensures
        chunks_upto(body, c, k) == body.take(offset_at(c as int, k as int, body.len() as int)),
    decreases k,
{
    if k == 0 {
        assert(c * 0 == 0) by (nonlinear_arith);
        assert(body.take(0) =~= Seq::<u8>::empty());
    } else {
        lemma_chunks_prefix(body, c, (k - 1) as nat);
        assert(c * k == c * (k - 1) + c) by (nonlinear_arith);
        let a = offset_at(c as int, k - 1, body.len() as int);
        let b = offset_at(c as int, k as int, body.len() as int);
        assert(a <= b);
        assert(body.take(a) + body.subrange(a, b) =~= body.take(b));
    }
}

/// Cutting a body for a session loses and adds nothing: its chunks, first
/// to last, are the body.
pub proof fn lemma_chunks_are_the_body(body: Seq<u8>, chunk_size: usize)
    ensures
        chunks_upto(
            body,
            chunk_of(chunk_size),
            (continuations(body.len() as int, chunk_of(chunk_size) as int) + 1) as nat,
        ) == body,
{
    let c = chunk_of(chunk_size);
    let ci = c as int;
    let n = body.len() as int;
    let k = continuations(n, ci) + 1;
    lemma_chunks_prefix(body, c, k as nat);
    assert(ci * k >= n) by (nonlinear_arith)
        requires
            ci >= 1,
            n >= 0,
            k == (if n > ci {
                (n - 1) / ci
            } else {
                0
            }) + 1,
    {
        if n > ci {
            assert(ci * ((n - 1) / ci) + (n - 1) % ci == n - 1);
            assert((n - 1) % ci < ci);
        }
    }
    assert(body.take(n) =~= body);
}

/// How long a finished session stays to answer late acknowledgements, in
/// nanoseconds (five seconds).
pub const DONE_LINGER_NANOS: u64 = 5_000_000_000;

/// `a - b`, or 0 when `b` is later: the time from `b` to `a`.
pub open spec fn elapsed(a: u64, b: u64) -> int {
    if a >= b {
        a - b
    } else {
        0
    }
}

/// The clock of one live session, in nanoseconds on the server's clock:
/// when it began, when packets last went out, and when the client had
/// acknowledged everything.
#[derive(Clone, Copy, Debug, PartialEq, Eq)]
pub struct SessionTimes {
    pub created: u64,
    pub last_send: u64,
    pub done_at: Option<u64>,
}

impl SessionTimes {
    /// A session begun at `now`, its first packets sent then.
    pub fn start(now: u64) -> (r: Self)
        ensures
            r.created == now,
            r.last_send == now,
            r.done_at is None,
    {
        SessionTimes { created: now, last_send: now, done_at: None }
    }

    /// Whether the session leaves the table at `now`: it has run longer
    /// than `session_timeout`, or finished more than `linger` ago.
    pub fn expired(&self, now: u64, session_timeout: u64, linger: u64) -> (r: bool)
        ensures
            r == (elapsed(now, self.created) > session_timeout || match self.done_at {
                Some(done) => elapsed(now, done) > linger,
                None => false,
            }),
    {
        let age: u64 = if now >= self.created {
            now - self.created
        } else {
            0
        };
        let lingered = match self.done_at {
            Some(done) => {
                let since: u64 = if now >= done {
                    now - done
                } else {
                    0
                };
                since > linger
            },
            None => false,
        };
        age > session_timeout || lingered
    }

    /// Whether the unacknowledged packets go out again at `now`: the
    /// session is not finished and `retransmit_after` has passed since the
    /// last send.
    pub fn retransmit_due(&self, now: u64, retransmit_after: u64) -> (r: bool)
        ensures
            r == (self.done_at is None && elapsed(now, self.last_send) >= retransmit_after),
    {
        if self.done_at.is_some() {
            return false;
        }
        let since: u64 = if now >= self.last_send {
            now - self.last_send
        } else {
            0
        };
        since >= retransmit_after
    }

    /// Records a send at `now`.
    pub fn sent(&mut self, now: u64)
        ensures
            final(self).last_send == now,
            final(self).created == old(self).created,
            final(self).done_at == old(self).done_at,
    {
        self.last_send = now;
    }

    /// Records that everything was acknowledged at `now`; the first such
    /// moment is kept.
    pub fn finished(&mut self, now: u64)
        ensures
            final(self).created == old(self).created,
            final(self).last_send == old(self).last_send,
            final(self).done_at == (match old(self).done_at {
                Some(d) => Some(d),
                None => Some(now),
            }),
    {
        if self.done_at.is_none() {
            self.done_at = Some(now);
        }
    }
}

/// What becomes of a request from a peer.
#[derive(Clone, Copy, Debug, PartialEq, Eq, Structural)]
pub enum Admission {
    /// The peer already has a live session: the request is ignored.
    Duplicate,
    /// The table is full: the request is dropped.
    Full,
    /// The request is served.
    Admit,
}

/// Whether a request is served: not while the peer has a live session,
/// and not when `live_sessions` has reached `max_sessions`.
pub fn admission(peer_is_live: bool, live_sessions: usize, max_sessions: usize) -> (r: Admission)
    ensures
        r == (if peer_is_live {
            Admission::Duplicate
        } else if live_sessions >= max_sessions {
            Admission::Full
        } else {
            Admission::Admit
        }),
{
    if peer_is_live {
        Admission::Duplicate
    } else if live_sessions >= max_sessions {
        Admission::Full
    } else {
        Admission::Admit
    }
}

/// Whether a body of `body_len` bytes cut every `chunk_size` bytes numbers
/// within the sequence space, as `build_session` requires.
pub fn session_fits(body_len: usize, chunk_size: usize) -> (r: bool)
    ensures
        r == (packet_count(body_len as nat, chunk_of(chunk_size)) < MAX_SEQ - MIN_SEQ),
{
    let c: usize = if chunk_size == 0 {
        1
    } else {
        chunk_size
    };
    let count: usize = if body_len > c {
        (body_len - 1) / c
    } else {
        0
    };
    count < (MAX_SEQ - MIN_SEQ - 2) as usize
}

} // verus!
