//! Protocol detection, HTTP/2 stream bookkeeping, flow-control windows and
//! parser metrics.
use vstd::prelude::*;
use vstd::slice::slice_subrange;
use crate::error::Error;
use crate::http1::bytes_equal;
use crate::http2::{connection_preface, preface};

verus! {

/// A protocol version detected or negotiated.
#[derive(Debug, Clone, Copy, PartialEq, Eq, Structural)]
pub enum Protocol {
    Http1,
    Http2,
    Http3,
}

/// The result of protocol detection: the protocol and the bytes its marker
/// took (the HTTP/2 preface; nothing for HTTP/1).
#[derive(Debug, Clone, Copy, PartialEq, Eq, Structural)]
pub struct ProtocolDetection {
    pub protocol: Protocol,
    pub consumed: usize,
}

/// The nine request-method tokens, each followed by a space.
pub open spec fn method_prefixes() -> Seq<Seq<u8>> {
    seq![
        seq![71u8, 69u8, 84u8, 32u8],
        seq![72u8, 69u8, 65u8, 68u8, 32u8],
        seq![80u8, 79u8, 83u8, 84u8, 32u8],
        seq![80u8, 85u8, 84u8, 32u8],
        seq![68u8, 69u8, 76u8, 69u8, 84u8, 69u8, 32u8],
        seq![67u8, 79u8, 78u8, 78u8, 69u8, 67u8, 84u8, 32u8],
        seq![79u8, 80u8, 84u8, 73u8, 79u8, 78u8, 83u8, 32u8],
        seq![84u8, 82u8, 65u8, 67u8, 69u8, 32u8],
        seq![80u8, 65u8, 84u8, 67u8, 72u8, 32u8],
    ]
}

/// `s` starts with a method token and a space.
pub open spec fn starts_with_method(s: Seq<u8>) -> bool {
    exists|i: int|
        0 <= i < 9 && #[trigger] method_prefixes()[i].len() <= s.len() && s.take(
            method_prefixes()[i].len() as int,
        ) == method_prefixes()[i]
}

fn starts_with(s: &[u8], p: &[u8]) -> (r: bool)
    ensures
        r == (p@.len() <= s@.len() && s@.take(p@.len() as int) == p@),
{
    if p.len() > s.len() {
        return false;
    }
    let head = slice_subrange(s, 0, p.len());
    bytes_equal(head, p)
}

/// Whether `input` starts with an HTTP/1 method token and a space.
pub fn detect_http1_method(input: &[u8]) -> (r: bool)
    ensures
        r == starts_with_method(input@),
{
    let m0 = [71u8, 69u8, 84u8, 32u8];
    let m1 = [72u8, 69u8, 65u8, 68u8, 32u8];
    let m2 = [80u8, 79u8, 83u8, 84u8, 32u8];
    let m3 = [80u8, 85u8, 84u8, 32u8];
    let m4 = [68u8, 69u8, 76u8, 69u8, 84u8, 69u8, 32u8];
    let m5 = [67u8, 79u8, 78u8, 78u8, 69u8, 67u8, 84u8, 32u8];
    let m6 = [79u8, 80u8, 84u8, 73u8, 79u8, 78u8, 83u8, 32u8];
    let m7 = [84u8, 82u8, 65u8, 67u8, 69u8, 32u8];
    let m8 = [80u8, 65u8, 84u8, 67u8, 72u8, 32u8];
    let ghost mp = method_prefixes();
    assert(m0@ =~= mp[0]);
    assert(m1@ =~= mp[1]);
    assert(m2@ =~= mp[2]);
    assert(m3@ =~= mp[3]);
    assert(m4@ =~= mp[4]);
    assert(m5@ =~= mp[5]);
    assert(m6@ =~= mp[6]);
    assert(m7@ =~= mp[7]);
    assert(m8@ =~= mp[8]);
    let r = starts_with(input, m0.as_slice()) || starts_with(input, m1.as_slice()) || starts_with(
        input,
        m2.as_slice(),
    ) || starts_with(input, m3.as_slice()) || starts_with(input, m4.as_slice()) || starts_with(
        input,
        m5.as_slice(),
    ) || starts_with(input, m6.as_slice()) || starts_with(input, m7.as_slice()) || starts_with(
        input,
        m8.as_slice(),
    );
    proof {
        if !r {
            assert forall|i: int| 0 <= i < 9 implies !(#[trigger] mp[i].len() <= input@.len()
                && input@.take(mp[i].len() as int) == mp[i]) by {
                if i == 0 {
                } else if i == 1 {
                } else if i == 2 {
                } else if i == 3 {
                } else if i == 4 {
                } else if i == 5 {
                } else if i == 6 {
                } else if i == 7 {
                } else {
                }
            }
        }
    }
    r
}

/// The protocol that `input` starts with: HTTP/2 when the 24-byte preface
/// is complete, else HTTP/1 when a method token and a space begin it.
pub open spec fn detection_of(s: Seq<u8>) -> Option<ProtocolDetection> {
    if s.len() >= 24 && s.take(24) == preface() {
        Some(ProtocolDetection { protocol: Protocol::Http2, consumed: 24 })
    } else if starts_with_method(s) {
        Some(ProtocolDetection { protocol: Protocol::Http1, consumed: 0 })
    } else {
        None
    }
}

/// Detects the protocol from the first bytes of a connection.
pub fn detect_protocol(input: &[u8]) -> (r: Option<ProtocolDetection>)
    ensures
        r == detection_of(input@),
{
    let p = connection_preface();
    if starts_with(input, p.as_slice()) {
        return Some(ProtocolDetection { protocol: Protocol::Http2, consumed: 24 });
    }
    if detect_http1_method(input) {
        return Some(ProtocolDetection { protocol: Protocol::Http1, consumed: 0 });
    }
    None
}

/// A parser of one wire protocol.
pub trait ProtocolParser {
    type Request;

    type Response;

    type Error;

    /// Parses one message from `input`; returns it and the bytes it took.
    fn parse(&mut self, input: &[u8]) -> Result<(Self::Request, usize), Self::Error>;

    /// Serialises a response.
    fn build_response(&self, response: Self::Response) -> Vec<u8>;
}

/// Stream states of RFC 7540.
#[derive(Debug, Clone, Copy, PartialEq, Eq, Structural)]
pub enum StreamState {
    Idle,
    Open,
    HalfClosedLocal,
    HalfClosedRemote,
    Closed,
}

/// The value stored under `k` in an association list: the first entry with
/// that key at or after `i`.
pub open spec fn assoc_get<V>(s: Seq<(u32, V)>, k: u32, i: int) -> Option<V>
    decreases s.len() - i,
{
    if i < 0 || i >= s.len() {
        None
    } else if s[i].0 == k {
        Some(s[i].1)
    } else {
        assoc_get(s, k, i + 1)
    }
}

/// The association list as a map.
pub open spec fn assoc_map<V>(s: Seq<(u32, V)>) -> Map<u32, V> {
    Map::new(|k: u32| assoc_get(s, k, 0) is Some, |k: u32| assoc_get(s, k, 0).unwrap())
}

/// Keys are unique.
pub open spec fn keys_unique<V>(s: Seq<(u32, V)>) -> bool {
    forall|i: int, j: int| 0 <= i < j < s.len() ==> s[i].0 != s[j].0
}

proof fn lemma_assoc_get<V>(s: Seq<(u32, V)>, k: u32, i: int)
    requires
        0 <= i,
    ensures
        match assoc_get(s, k, i) {
            Some(v) => exists|j: int| i <= j < s.len() && s[j].0 == k && s[j].1 == v && forall|m: int|
                i <= m < j ==> s[m].0 != k,
            None => forall|m: int| i <= m < s.len() ==> s[m].0 != k,
        },
    decreases s.len() - i,
{
    if i < s.len() && s[i].0 != k {
        lemma_assoc_get(s, k, i + 1);
    }
}

/// With unique keys, the value under `s[j].0` is `s[j].1`.
proof fn lemma_assoc_at<V>(s: Seq<(u32, V)>, j: int)
    requires
        keys_unique(s),
        0 <= j < s.len(),
    ensures
        assoc_get(s, s[j].0, 0) == Some(s[j].1),
{
    lemma_assoc_get(s, s[j].0, 0);
    match assoc_get(s, s[j].0, 0) {
        Some(v) => {
            let w = choose|w: int|
                0 <= w < s.len() && s[w].0 == s[j].0 && s[w].1 == v && forall|m: int|
                    0 <= m < w ==> s[m].0 != s[j].0;
            if w < j {
            } else if w > j {
            }
        },
        None => {},
    }
}

/// The index of the entry with key `k`.
fn assoc_find<V>(v: &Vec<(u32, V)>, k: u32) -> (r: Option<usize>)
    ensures
        match r {
            Some(i) => i < v@.len() && v@[i as int].0 == k && assoc_get(v@, k, 0) == Some(
                v@[i as int].1,
            ),
            None => assoc_get(v@, k, 0) is None,
        },
{
    let mut i: usize = 0;
    while i < v.len()
        invariant
            i <= v@.len(),
            assoc_get(v@, k, 0) == assoc_get(v@, k, i as int),
        decreases v@.len() - i,
    {
        if v[i].0 == k {
            return Some(i);
        }
        i = i + 1;
    }
    None
}

/// Replacing the value at the entry of key `s[j].0` updates the map there only.
proof fn lemma_assoc_update<V>(s: Seq<(u32, V)>, j: int, v: V)
    requires
        keys_unique(s),
        0 <= j < s.len(),
    ensures
        keys_unique(s.update(j, (s[j].0, v))),
        assoc_map(s.update(j, (s[j].0, v))) == assoc_map(s).insert(s[j].0, v),
{
    let t = s.update(j, (s[j].0, v));
    assert forall|k: u32| #[trigger] assoc_get(t, k, 0) == if k == s[j].0 {
        Some(v)
    } else {
        assoc_get(s, k, 0)
    } by {
        lemma_assoc_get(s, k, 0);
        lemma_assoc_get(t, k, 0);
        lemma_assoc_at(t, j);
        if k != s[j].0 {
            match assoc_get(s, k, 0) {
                Some(x) => {
                    let w = choose|w: int|
                        0 <= w < s.len() && s[w].0 == k && s[w].1 == x && forall|m: int|
                            0 <= m < w ==> s[m].0 != k;
                    lemma_assoc_at(s, w);
                    lemma_assoc_at(t, w);
                },
                None => {},
            }
        }
    }
    assert(assoc_map(t) =~= assoc_map(s).insert(s[j].0, v));
}

/// Appending an entry with a new key adds it to the map.
proof fn lemma_assoc_push<V>(s: Seq<(u32, V)>, k: u32, v: V)
    requires
        keys_unique(s),
        assoc_get(s, k, 0) is None,
    ensures
        keys_unique(s.push((k, v))),
        assoc_map(s.push((k, v))) == assoc_map(s).insert(k, v),
{
    let t = s.push((k, v));
    lemma_assoc_get(s, k, 0);
    assert forall|q: u32| #[trigger] assoc_get(t, q, 0) == if q == k {
        Some(v)
    } else {
        assoc_get(s, q, 0)
    } by {
        lemma_assoc_get(s, q, 0);
        lemma_assoc_get(t, q, 0);
        lemma_assoc_at(t, s.len() as int);
        match assoc_get(s, q, 0) {
            Some(x) => {
                let w = choose|w: int|
                    0 <= w < s.len() && s[w].0 == q && s[w].1 == x && forall|m: int|
                        0 <= m < w ==> s[m].0 != q;
                lemma_assoc_at(t, w);
            },
            None => {},
        }
    }
    assert(assoc_map(t) =~= assoc_map(s).insert(k, v));
}

/// The number of streams that are not closed.
pub open spec fn live_count(s: Seq<(u32, StreamState)>) -> nat
    decreases s.len(),
{
    if s.len() == 0 {
        0
    } else {
        live_count(s.drop_last()) + if s.last().1 == StreamState::Closed {
            0nat
        } else {
            1nat
        }
    }
}


/// The entries of `s` that are not closed, in order.
pub open spec fn open_entries(s: Seq<(u32, StreamState)>) -> Seq<(u32, StreamState)>
    decreases s.len(),
{
    if s.len() == 0 {
        seq![]
    } else {
        let r = open_entries(s.drop_last());
        if s.last().1 == StreamState::Closed {
            r
        } else {
            r.push(s.last())
        }
    }
}

proof fn lemma_open_entries(s: Seq<(u32, StreamState)>)
    requires
        keys_unique(s),
    ensures
        keys_unique(open_entries(s)),
        forall|j: int| 0 <= j < open_entries(s).len() ==> exists|m: int| 0 <= m < s.len() && s[m] == #[trigger] open_entries(s)[j],
    decreases s.len(),
{
    if s.len() > 0 {
        let p = s.drop_last();
        assert(keys_unique(p));
        lemma_open_entries(p);
        let r = open_entries(p);
        assert forall|j: int| 0 <= j < r.len() implies exists|m: int| 0 <= m < s.len() && s[m] == #[trigger] r[j] by {
            let m = choose|m: int| 0 <= m < p.len() && p[m] == r[j];
            assert(s[m] == p[m]);
        }
        if s.last().1 != StreamState::Closed {
            let t = r.push(s.last());
            assert forall|x: int, y: int| 0 <= x < y < t.len() implies t[x].0 != t[y].0 by {
                if y == r.len() {
                    let m = choose|m: int| 0 <= m < s.len() && s[m] == r[x];
                    assert(m < p.len()) by {
                        if m == s.len() - 1 {
                            let m2 = choose|m2: int| 0 <= m2 < p.len() && p[m2] == r[x];
                            assert(s[m2] == r[x]);
                        }
                    }
                } else {
                    assert(t[x] == r[x] && t[y] == r[y]);
                }
            }
            assert forall|j: int| 0 <= j < t.len() implies exists|m: int| 0 <= m < s.len() && s[m] == #[trigger] t[j] by {
                if j < r.len() {
                    assert(t[j] == r[j]);
                } else {
                    assert(s[s.len() - 1] == t[j]);
                }
            }
        }
    }
}


/// The ids of the streams that are not closed.
pub open spec fn live_ids(m: Map<u32, StreamState>) -> Set<u32> {
    m.dom().filter(|k: u32| m[k] != StreamState::Closed)
}

proof fn lemma_live_count(s: Seq<(u32, StreamState)>)
    requires
        keys_unique(s),
    ensures
        live_ids(assoc_map(s)).finite(),
        live_ids(assoc_map(s)).len() == live_count(s),
    decreases s.len(),
{
    if s.len() == 0 {
        assert forall|k: u32| !#[trigger] assoc_map(s).contains_key(k) by {}
        assert(live_ids(assoc_map(s)) =~= Set::<u32>::empty());
    } else {
        let t = s.drop_last();
        let e = s.last();
        assert(keys_unique(t));
        lemma_assoc_get(t, e.0, 0);
        assert(assoc_get(t, e.0, 0) is None) by {
            match assoc_get(t, e.0, 0) {
                Some(v) => {
                    let j = choose|j: int| 0 <= j < t.len() && t[j].0 == e.0 && t[j].1 == v && forall|m: int| 0 <= m < j ==> t[m].0 != e.0;
                    assert(s[j] == t[j]);
                    assert(s[s.len() - 1] == e);
                },
                None => {},
            }
        }
        lemma_assoc_push(t, e.0, e.1);
        assert(t.push(e) =~= s);
        lemma_live_count(t);
        let mt = assoc_map(t);
        assert(!mt.contains_key(e.0));
        if e.1 != StreamState::Closed {
            assert(live_ids(assoc_map(s)) =~= live_ids(mt).insert(e.0));
        } else {
            assert(live_ids(assoc_map(s)) =~= live_ids(mt));
        }
    }
}

/// Stream table and id allocation. Ids are odd and strictly increasing.
#[derive(Debug)]
pub struct StreamManager {
    streams: Vec<(u32, StreamState)>,
    next_stream_id: u32,
    max_concurrent_streams: Option<u32>,
}

impl StreamManager {
    /// Ids are unique.
    pub closed spec fn wf(&self) -> bool {
        keys_unique(self.streams@)
    }

    /// The streams as (id, state) pairs, oldest first.
    pub closed spec fn entries(&self) -> Seq<(u32, StreamState)> {
        self.streams@
    }

    /// Stream id to state.
    pub open spec fn states(&self) -> Map<u32, StreamState> {
        assoc_map(self.entries())
    }

    /// The number of streams that are not closed.
    pub closed spec fn live(&self) -> nat {
        live_count(self.streams@)
    }

    /// The live count is the number of stream ids whose state is not Closed.
    pub proof fn lemma_live_is_open_streams(&self)
        requires
            self.wf(),
        ensures
            live_ids(self.states()).finite(),
            self.live() == live_ids(self.states()).len(),
    {
        lemma_live_count(self.streams@);
    }

    /// The id the next stream gets.
    pub closed spec fn next_id(&self) -> u32 {
        self.next_stream_id
    }

    /// The concurrency limit.
    pub closed spec fn limit(&self) -> Option<u32> {
        self.max_concurrent_streams
    }

    pub fn new(max_concurrent: Option<u32>) -> (r: Self)
        ensures
            r.wf(),
            r.states() == Map::<u32, StreamState>::empty(),
            r.live() == 0,
            r.next_id() == 1,
            r.limit() == max_concurrent,
    {
        let r = StreamManager { streams: Vec::new(), next_stream_id: 1, max_concurrent_streams: max_concurrent };
        assert(r.states() =~= Map::<u32, StreamState>::empty());
        r
    }

    /// The number of streams that are not closed.
    pub fn live_streams(&self) -> (r: usize)
        ensures
            r == self.live(),
    {
        let mut n: usize = 0;
        let mut i: usize = 0;
        while i < self.streams.len()
            invariant
                i <= self.streams@.len(),
                n == live_count(self.streams@.take(i as int)),
                n <= i,
            decreases self.streams@.len() - i,
        {
            assert(self.streams@.take(i as int + 1).drop_last() =~= self.streams@.take(i as int));
            if self.streams[i].1 != StreamState::Closed {
                n = n + 1;
            }
            i = i + 1;
        }
        assert(self.streams@.take(self.streams@.len() as int) =~= self.streams@);
        n
    }

    /// Opens a new stream with the lowest odd id at or above the next id
    /// that no stream uses yet. Fails with `TooManyStreams` when the live
    /// streams already reach the limit, or when ids run out.
    pub fn create_stream(&mut self) -> (r: Result<u32, Error>)
        requires
            old(self).wf(),
        ensures
            final(self).wf(),
            final(self).limit() == old(self).limit(),
            match r {
                Ok(id) => {
                    &&& !old(self).states().contains_key(id)
                    &&& id >= old(self).next_id() && id % 2 == 1
                    &&& forall|k: u32| old(self).next_id() <= k < id && k % 2 == old(self).next_id() % 2
                        ==> #[trigger] old(self).states().contains_key(k)
                    &&& final(self).next_id() == id + 2
                    &&& final(self).states() == old(self).states().insert(id, StreamState::Open)
                },
                Err(e) => e is TooManyStreams && final(self).states() == old(self).states()
                    && final(self).next_id() == old(self).next_id(),
            },
            (match old(self).limit() {
                Some(m) => old(self).live() >= m,
                None => false,
            }) || old(self).next_id() > 2147483645 || old(self).next_id() % 2 == 0 ==> r is Err,
    {
        if let Some(max) = self.max_concurrent_streams {
            if self.live_streams() >= max as usize {
                return Err(Error::TooManyStreams);
            }
        }
        if self.next_stream_id > 2147483645 || self.next_stream_id % 2 == 0 {
            return Err(Error::TooManyStreams);
        }
        let mut id = self.next_stream_id;
        while id <= 2147483645 && self.get_stream(id).is_some()
            invariant
                self.wf(),
                self.states() == old(self).states(),
                self.next_stream_id == old(self).next_stream_id,
                self.max_concurrent_streams == old(self).max_concurrent_streams,
                id >= self.next_stream_id,
                id <= 2147483647,
                id % 2 == 1,
                old(self).next_id() % 2 == 1,
                forall|k: u32| old(self).next_id() <= k < id && k % 2 == old(self).next_id() % 2
                    ==> #[trigger] old(self).states().contains_key(k),
            decreases 2147483647 - id,
        {
            assert(old(self).states().contains_key(id));
            let ghost prev = id;
            id = id + 2;
            assert forall|k: u32| old(self).next_id() <= k < id && k % 2 == old(self).next_id() % 2
                implies #[trigger] old(self).states().contains_key(k) by {
                if k >= prev {
                    assert(k == prev);
                }
            }
        }
        if id > 2147483645 {
            return Err(Error::TooManyStreams);
        }
        self.update_stream(id, StreamState::Open);
        self.next_stream_id = id + 2;
        Ok(id)
    }

    /// The state of a stream.
    pub fn get_stream(&self, stream_id: u32) -> (r: Option<StreamState>)
        ensures
            r == (if self.states().contains_key(stream_id) {
                Some(self.states()[stream_id])
            } else {
                None
            }),
    {
        match assoc_find(&self.streams, stream_id) {
            Some(i) => Some(self.streams[i].1),
            None => None,
        }
    }

    /// Sets the state of a stream.
    pub fn update_stream(&mut self, stream_id: u32, state: StreamState)
        requires
            old(self).wf(),
        ensures
            final(self).wf(),
            final(self).states() == old(self).states().insert(stream_id, state),
            final(self).next_id() == old(self).next_id(),
            final(self).limit() == old(self).limit(),
    {
        match assoc_find(&self.streams, stream_id) {
            Some(i) => {
                proof {
                    lemma_assoc_update(self.streams@, i as int, state);
                }
                self.streams.set(i, (stream_id, state));
            },
            None => {
                proof {
                    lemma_assoc_push(self.streams@, stream_id, state);
                }
                self.streams.push((stream_id, state));
            },
        }
    }

    /// Removes the closed streams.
    pub fn cleanup_closed_streams(&mut self)
        requires
            old(self).wf(),
        ensures
            final(self).wf(),
            final(self).entries() == open_entries(old(self).entries()),
            final(self).next_id() == old(self).next_id(),
            final(self).limit() == old(self).limit(),
    {
        let mut kept: Vec<(u32, StreamState)> = Vec::new();
        let mut i: usize = 0;
        let ghost s = self.streams@;
        assert(s.take(0) =~= seq![]);
        while i < self.streams.len()
            invariant
                s == self.streams@,
                i <= s.len(),
                kept@ == open_entries(s.take(i as int)),
            decreases s.len() - i,
        {
            let e = self.streams[i];
            assert(s.take(i as int + 1).drop_last() =~= s.take(i as int));
            if e.1 != StreamState::Closed {
                kept.push(e);
            }
            i = i + 1;
        }
        assert(s.take(s.len() as int) =~= s);
        proof {
            lemma_open_entries(s);
        }
        self.streams = kept;
    }
}

/// The largest window: 2^31 - 1.
pub const MAX_WINDOW: i64 = 2147483647;

/// Connection and per-stream flow-control windows. A stream's window is the
/// initial window plus the stream's own adjustments, so a change of the
/// initial window moves every stream's window by the same difference.
#[derive(Debug)]
pub struct FlowController {
    connection_window: i64,
    initial_stream_window: i64,
    stream_offsets: Vec<(u32, i64)>,
}

impl FlowController {
    pub closed spec fn wf(&self) -> bool {
        &&& keys_unique(self.stream_offsets@)
        &&& -2147483648 <= self.connection_window <= MAX_WINDOW
        &&& 0 <= self.initial_stream_window <= MAX_WINDOW
        &&& forall|k: u32|
            #![trigger assoc_map(self.stream_offsets@)[k]]
            assoc_map(self.stream_offsets@).contains_key(k) ==> -2147483648
                <= self.initial_stream_window + assoc_map(self.stream_offsets@)[k] <= MAX_WINDOW
    }

    /// The connection window.
    pub closed spec fn conn(&self) -> int {
        self.connection_window as int
    }

    /// The initial window of new streams.
    pub closed spec fn initial(&self) -> int {
        self.initial_stream_window as int
    }

    /// The window of a stream: the initial window until the stream's window
    /// has been changed.
    pub closed spec fn window_of(&self, id: u32) -> int {
        let m = assoc_map(self.stream_offsets@);
        if m.contains_key(id) {
            self.initial_stream_window + m[id]
        } else {
            self.initial_stream_window as int
        }
    }

    /// Every window lies in `[0, 2^31 - 1]`.
    pub open spec fn in_range(&self) -> bool {
        &&& 0 <= self.conn() <= MAX_WINDOW
        &&& forall|id: u32| 0 <= #[trigger] self.window_of(id) <= MAX_WINDOW
    }

    pub fn new(initial_window: i32) -> (r: Self)
        requires
            initial_window >= 0,
        ensures
            r.wf(),
            r.in_range(),
            r.conn() == initial_window,
            r.initial() == initial_window,
            forall|id: u32| #[trigger] r.window_of(id) == initial_window,
    {
        let r = FlowController {
            connection_window: initial_window as i64,
            initial_stream_window: initial_window as i64,
            stream_offsets: Vec::new(),
        };
        assert(assoc_map(r.stream_offsets@) =~= Map::<u32, i64>::empty());
        r
    }

    /// The connection window.
    pub fn connection_window(&self) -> (r: i64)
        ensures
            r == self.conn(),
    {
        self.connection_window
    }

    fn offset_of(&self, id: u32) -> (r: (Option<usize>, i64))
        requires
            self.wf(),
        ensures
            self.window_of(id) == self.initial_stream_window + r.1,
            match r.0 {
                Some(i) => i < self.stream_offsets@.len() && self.stream_offsets@[i as int].0 == id
                    && self.stream_offsets@[i as int].1 == r.1 && assoc_map(self.stream_offsets@).contains_key(id),
                None => !assoc_map(self.stream_offsets@).contains_key(id) && r.1 == 0,
            },
    {
        match assoc_find(&self.stream_offsets, id) {
            Some(i) => (Some(i), self.stream_offsets[i].1),
            None => (None, 0),
        }
    }

    /// The window of a stream.
    pub fn stream_window(&self, id: u32) -> (r: i64)
        requires
            self.wf(),
        ensures
            r == self.window_of(id),
    {
        let (_, off) = self.offset_of(id);
        assert(self.window_of(id) <= MAX_WINDOW) by {
            let m = assoc_map(self.stream_offsets@);
            if m.contains_key(id) {
                assert(-2147483648 <= self.initial_stream_window + m[id] <= MAX_WINDOW);
            }
        }
        self.initial_stream_window + off
    }

    fn set_offset(&mut self, id: u32, slot: Option<usize>, off: i64)
        requires
            old(self).wf(),
            match slot {
                Some(i) => i < old(self).stream_offsets@.len() && old(self).stream_offsets@[i as int].0 == id,
                None => !assoc_map(old(self).stream_offsets@).contains_key(id),
            },
            -2147483648 <= old(self).initial_stream_window + off <= MAX_WINDOW,
        ensures
            final(self).wf(),
            final(self).conn() == old(self).conn(),
            final(self).initial() == old(self).initial(),
            final(self).window_of(id) == old(self).initial() + off,
            forall|k: u32| k != id ==> #[trigger] final(self).window_of(k) == old(self).window_of(k),
    {
        match slot {
            Some(i) => {
                proof {
                    lemma_assoc_update(self.stream_offsets@, i as int, off);
                }
                self.stream_offsets.set(i, (id, off));
            },
            None => {
                proof {
                    lemma_assoc_get(self.stream_offsets@, id, 0);
                    lemma_assoc_push(self.stream_offsets@, id, off);
                }
                self.stream_offsets.push((id, off));
            },
        }
    }

    /// Adds `delta` to the connection window; a result outside
    /// `[0, 2^31 - 1]` is a flow-control error and changes nothing.
    pub fn update_connection_window(&mut self, delta: i32) -> (r: Result<(), Error>)
        requires
            old(self).wf(),
        ensures
            final(self).wf(),
            final(self).initial() == old(self).initial(),
            forall|k: u32| #[trigger] final(self).window_of(k) == old(self).window_of(k),
            r is Ok <==> 0 <= old(self).conn() + delta <= MAX_WINDOW,
            r is Ok ==> final(self).conn() == old(self).conn() + delta,
            r is Err ==> r->Err_0 is FlowControlError && final(self).conn() == old(self).conn(),
            old(self).in_range() ==> final(self).in_range(),
    {
        let w = self.connection_window + delta as i64;
        if w < 0 || w > MAX_WINDOW {
            return Err(Error::FlowControlError);
        }
        self.connection_window = w;
        proof {
            if old(self).in_range() {
                assert forall|k: u32| 0 <= #[trigger] self.window_of(k) <= MAX_WINDOW by {
                    assert(self.window_of(k) == old(self).window_of(k));
                }
            }
        }
        Ok(())
    }

    /// Adds `delta` to a stream's window; a result outside `[0, 2^31 - 1]`
    /// is a flow-control error and changes nothing.
    pub fn update_stream_window(&mut self, stream_id: u32, delta: i32) -> (r: Result<(), Error>)
        requires
            old(self).wf(),
        ensures
            final(self).wf(),
            final(self).conn() == old(self).conn(),
            final(self).initial() == old(self).initial(),
            forall|k: u32| k != stream_id ==> #[trigger] final(self).window_of(k) == old(self).window_of(k),
            r is Ok <==> 0 <= old(self).window_of(stream_id) + delta <= MAX_WINDOW,
            r is Ok ==> final(self).window_of(stream_id) == old(self).window_of(stream_id) + delta,
            r is Err ==> r->Err_0 is FlowControlError && final(self).window_of(stream_id) == old(self).window_of(stream_id),
            old(self).in_range() ==> final(self).in_range(),
    {
        let (slot, off) = self.offset_of(stream_id);
        let w = self.stream_window(stream_id) + delta as i64;
        if w < 0 || w > MAX_WINDOW {
            return Err(Error::FlowControlError);
        }
        self.set_offset(stream_id, slot, off + delta as i64);
        proof {
            if old(self).in_range() {
                assert forall|k: u32| 0 <= #[trigger] self.window_of(k) <= MAX_WINDOW by {
                    if k != stream_id {
                        assert(self.window_of(k) == old(self).window_of(k));
                    }
                }
            }
        }
        Ok(())
    }

    /// Whether `size` bytes of DATA fit both the connection window and the
    /// stream's window.
    pub fn can_send(&self, stream_id: u32, size: usize) -> (r: bool)
        requires
            self.wf(),
        ensures
            r == (size <= self.conn() && size <= self.window_of(stream_id)),
    {
        if size as u64 > 2147483647 {
            return false;
        }
        let n = size as i64;
        n <= self.connection_window && n <= self.stream_window(stream_id)
    }

    /// Takes `size` bytes from both windows after sending DATA; sending more
    /// than either window allows is a flow-control error and changes nothing.
    pub fn consume_window(&mut self, stream_id: u32, size: usize) -> (r: Result<(), Error>)
        requires
            old(self).wf(),
        ensures
            final(self).wf(),
            final(self).initial() == old(self).initial(),
            forall|k: u32| k != stream_id ==> #[trigger] final(self).window_of(k) == old(self).window_of(k),
            r is Ok <==> (size <= old(self).conn() && size <= old(self).window_of(stream_id)),
            r is Ok ==> final(self).conn() == old(self).conn() - size && final(self).window_of(
                stream_id,
            ) == old(self).window_of(stream_id) - size,
            r is Err ==> r->Err_0 is FlowControlError && final(self).conn() == old(self).conn()
                && final(self).window_of(stream_id) == old(self).window_of(stream_id),
            old(self).in_range() ==> final(self).in_range(),
    {
        if !self.can_send(stream_id, size) {
            return Err(Error::FlowControlError);
        }
        let n = size as i64;
        let (slot, off) = self.offset_of(stream_id);
        self.connection_window = self.connection_window - n;
        self.set_offset(stream_id, slot, off - n);
        proof {
            if old(self).in_range() {
                assert forall|k: u32| 0 <= #[trigger] self.window_of(k) <= MAX_WINDOW by {
                    if k != stream_id {
                        assert(self.window_of(k) == old(self).window_of(k));
                    }
                }
            }
        }
        Ok(())
    }

    /// Applies a new SETTINGS_INITIAL_WINDOW_SIZE: every stream's window
    /// moves by the difference. A value above 2^31 - 1, or a stream window
    /// that would leave `[-2^31, 2^31 - 1]`, is a flow-control error and
    /// changes nothing.
    pub fn update_initial_window(&mut self, new_initial: u32) -> (r: Result<(), Error>)
        requires
            old(self).wf(),
        ensures
            final(self).wf(),
            final(self).conn() == old(self).conn(),
            r is Ok <==> (new_initial <= MAX_WINDOW && forall|k: u32|
                -2147483648 <= #[trigger] old(self).window_of(k) + new_initial - old(self).initial() <= MAX_WINDOW),
            r is Ok ==> final(self).initial() == new_initial && forall|k: u32|
                #[trigger] final(self).window_of(k) == old(self).window_of(k) + new_initial - old(self).initial(),
            r is Err ==> r->Err_0 is FlowControlError && final(self).initial() == old(self).initial()
                && forall|k: u32| #[trigger] final(self).window_of(k) == old(self).window_of(k),
    {
        if new_initial as i64 > MAX_WINDOW {
            return Err(Error::FlowControlError);
        }
        let ni = new_initial as i64;
        let mut i: usize = 0;
        let ghost m = assoc_map(self.stream_offsets@);
        while i < self.stream_offsets.len()
            invariant
                self.wf(),
                self.stream_offsets@ == old(self).stream_offsets@,
                self.initial_stream_window == old(self).initial_stream_window,
                self.connection_window == old(self).connection_window,
                m == assoc_map(self.stream_offsets@),
                ni == new_initial as i64,
                0 <= ni <= MAX_WINDOW,
                i <= self.stream_offsets@.len(),
                forall|j: int| 0 <= j < i ==> -2147483648 <= ni + #[trigger] self.stream_offsets@[j].1 <= MAX_WINDOW,
            decreases self.stream_offsets@.len() - i,
        {
            let off = self.stream_offsets[i].1;
            proof {
                lemma_assoc_at(self.stream_offsets@, i as int);
                assert(m.contains_key(self.stream_offsets@[i as int].0));
                assert(m[self.stream_offsets@[i as int].0] == off);
            }
            let w = ni + off;
            if w < -2147483648 || w > MAX_WINDOW {
                proof {
                    let k = self.stream_offsets@[i as int].0;
                    assert(self.window_of(k) + ni - self.initial_stream_window == w);
                    assert(old(self).window_of(k) + new_initial - old(self).initial() == w);
                }
                return Err(Error::FlowControlError);
            }
            i = i + 1;
        }
        proof {
            assert forall|k: u32| #![trigger m[k]] m.contains_key(k) implies -2147483648 <= ni + m[k] <= MAX_WINDOW by {
                lemma_assoc_get(self.stream_offsets@, k, 0);
                let j = choose|j: int|
                    0 <= j < self.stream_offsets@.len() && self.stream_offsets@[j].0 == k && self.stream_offsets@[j].1
                        == m[k] && forall|q: int| 0 <= q < j ==> self.stream_offsets@[q].0 != k;
                assert(-2147483648 <= ni + self.stream_offsets@[j].1 <= MAX_WINDOW);
            }
        }
        self.initial_stream_window = ni;
        Ok(())
    }
}

/// Parse counters and the running mean parse time.
#[derive(Debug, Clone, Copy, PartialEq, Eq, Structural)]
pub struct ParserMetrics {
    pub requests_parsed: u64,
    pub bytes_processed: u64,
    pub parse_errors: u64,
    pub average_parse_time_ns: u64,
}

pub open spec fn sat_add(a: u64, b: u64) -> u64 {
    if a + b > u64::MAX {
        u64::MAX
    } else {
        (a + b) as u64
    }
}

fn saturating_add_u64(a: u64, b: u64) -> (r: u64)
    ensures
        r == sat_add(a, b),
{
    if a > u64::MAX - b {
        u64::MAX
    } else {
        a + b
    }
}

impl ParserMetrics {
    pub fn default() -> (r: ParserMetrics)
        ensures
            r == (ParserMetrics {
                requests_parsed: 0,
                bytes_processed: 0,
                parse_errors: 0,
                average_parse_time_ns: 0,
            }),
    {
        ParserMetrics { requests_parsed: 0, bytes_processed: 0, parse_errors: 0, average_parse_time_ns: 0 }
    }

    /// Records one parse: the bytes it read, how long it took and whether it
    /// succeeded. Counters saturate; the mean is over successful parses.
    pub fn record_parse(&mut self, bytes: usize, duration_ns: u64, success: bool)
        requires
            old(self).requests_parsed < u64::MAX,
        ensures
            final(self).bytes_processed == sat_add(old(self).bytes_processed, bytes as u64),
            success ==> final(self).requests_parsed == old(self).requests_parsed + 1
                && final(self).parse_errors == old(self).parse_errors
                && final(self).average_parse_time_ns == (old(self).average_parse_time_ns as int
                * old(self).requests_parsed as int + duration_ns as int) / (old(self).requests_parsed as int + 1),
            !success ==> final(self).requests_parsed == old(self).requests_parsed
                && final(self).parse_errors == sat_add(old(self).parse_errors, 1)
                && final(self).average_parse_time_ns == old(self).average_parse_time_ns,
    {
        self.bytes_processed = saturating_add_u64(self.bytes_processed, bytes as u64);
        if success {
            let n = self.requests_parsed as u128;
            let avg = self.average_parse_time_ns as u128;
            let d = duration_ns as u128;
            assert(avg * n <= 340282366920938463463374607431768211455u128 - 18446744073709551615u128) by (nonlinear_arith)
                requires
                    avg <= 18446744073709551615u128,
                    n <= 18446744073709551615u128,
            ;
            let total = avg * n + d;
            let n1 = n + 1;
            let mean = total / n1;
            assert(mean <= 18446744073709551615u128) by (nonlinear_arith)
                requires
                    avg <= 18446744073709551615u128,
                    d <= 18446744073709551615u128,
                    total == avg * n + d,
                    n1 == n + 1,
                    mean == total / n1,
            ;
            self.requests_parsed = self.requests_parsed + 1;
            self.average_parse_time_ns = mean as u64;
        } else {
            self.parse_errors = saturating_add_u64(self.parse_errors, 1);
        }
    }
}

/// The protocol of a multiplexed connection with its stream table and windows.
#[derive(Debug)]
pub struct ConnectionState {
    pub protocol: Protocol,
    pub streams: StreamManager,
    pub flow_control: FlowController,
}

} // verus!
