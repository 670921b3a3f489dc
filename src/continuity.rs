//! The continuity engine: per-topic append-only event logs, their line format on disk,
//! and replay for subscribers that catch up.
use vstd::prelude::*;
use crate::assoc::{assoc, lemma_assoc_absent, lemma_assoc_last, lemma_assoc_push,
    lemma_assoc_update};
use crate::clock::now_secs;
use crate::frame::{Frame, FrameModel};
use crate::num::{
    decimal, i64_text, parse_i64, parse_signed, parse_u16, parse_u64, signed_decimal, u64_text,
    unsigned_within,
};
use crate::num::{lemma_decimal_reads_back, lemma_parse_decimal, lemma_parse_signed_decimal};
use crate::text::{chars_of, lemma_char_pos_exact, slice_string, split_in,
    split_on, views};

verus! {

broadcast use vstd::string::group_string_axioms;

/// What a stored event records.
pub struct EventModel {
    pub seq: u64,
    pub timestamp: i64,
    pub lane: u16,
    pub topic: Seq<char>,
    pub data: Seq<char>,
}

/// One persisted event of a topic stream.
#[derive(Debug)]
pub struct StoredEvent {
    /// Sequence number, supplied by the caller; replay relies on it increasing.
    pub seq: u64,
    /// When the event was appended, in seconds since the Unix epoch.
    pub timestamp: i64,
    /// The lane the event came on.
    pub lane: u16,
    pub topic: String,
    pub data: String,
}

impl View for StoredEvent {
    type V = EventModel;

    open spec fn view(&self) -> EventModel {
        EventModel {
            seq: self.seq,
            timestamp: self.timestamp,
            lane: self.lane,
            topic: self.topic@,
            data: self.data@,
        }
    }
}

/// A copy of a stored event.
pub fn copy_event(e: &StoredEvent) -> (r: StoredEvent)
    ensures
        r@ == e@,
{
    StoredEvent {
        seq: e.seq,
        timestamp: e.timestamp,
        lane: e.lane,
        topic: e.topic.clone(),
        data: e.data.clone(),
    }
}

/// The events of one topic, oldest first.
#[derive(Debug)]
pub struct Stream {
    pub topic: String,
    pub events: Vec<StoredEvent>,
}

pub open spec fn event_views(s: Seq<StoredEvent>) -> Seq<EventModel> {
    s.map_values(|e: StoredEvent| e@)
}

pub open spec fn stream_entries(s: Seq<Stream>) -> Seq<(Seq<char>, Seq<EventModel>)> {
    s.map_values(|x: Stream| (x.topic@, event_views(x.events@)))
}

/// The events of `topic` in `m`, or none.
pub open spec fn stream_of(m: Map<Seq<char>, Seq<EventModel>>, topic: Seq<char>) -> Seq<
    EventModel,
> {
    if m.contains_key(topic) {
        m[topic]
    } else {
        Seq::empty()
    }
}

/// The file name of a topic's log: the topic with `/` replaced by `_`, then `.log`.
pub open spec fn log_name(topic: Seq<char>) -> Seq<char> {
    topic.map_values(
        |c: char|
            if c == '/' {
                '_'
            } else {
                c
            },
    ) + ".log"@
}

/// The line that records an event: sequence number, timestamp, lane and data, separated
/// by tabs and ended by a newline.
pub open spec fn log_line(e: EventModel) -> Seq<char> {
    decimal(e.seq as nat) + seq!['\t'] + signed_decimal(e.timestamp as int) + seq!['\t'] + decimal(
        e.lane as nat,
    ) + seq!['\t'] + e.data + seq!['\n']
}

/// The lines of a log file, as `str::lines` gives them: split at newlines, a carriage
/// return before a newline dropped, and no empty line after a final newline.
pub open spec fn text_lines(s: Seq<char>) -> Seq<Seq<char>> {
    let p = split_on(s, '\n');
    let body = p.drop_last().map_values(
        |l: Seq<char>|
            if l.len() > 0 && l.last() == '\r' {
                l.drop_last()
            } else {
                l
            },
    );
    if p.last().len() == 0 {
        body
    } else {
        body.push(p.last())
    }
}

/// The event a log line records, or `None` when it has fewer than four tab-separated
/// fields; a number that does not read is 0.
pub open spec fn parse_event(line: Seq<char>, topic: Seq<char>) -> Option<EventModel> {
    let f = split_on(line, '\t');
    if f.len() < 4 {
        None
    } else {
        Some(
            EventModel {
                seq: match unsigned_within(f[0], u64::MAX as nat) {
                    Some(v) => v as u64,
                    None => 0,
                },
                timestamp: match parse_signed(f[1]) {
                    Some(v) => if i64::MIN <= v <= i64::MAX {
                        v as i64
                    } else {
                        0
                    },
                    None => 0,
                },
                lane: match unsigned_within(f[2], u16::MAX as nat) {
                    Some(v) => v as u16,
                    None => 0,
                },
                topic,
                data: f[3],
            },
        )
    }
}

/// The events that a run of log lines records, in order.
pub open spec fn parse_events(ls: Seq<Seq<char>>, topic: Seq<char>) -> Seq<EventModel>
    decreases ls.len(),
{
    if ls.len() == 0 {
        Seq::empty()
    } else {
        match parse_event(ls.last(), topic) {
            Some(e) => parse_events(ls.drop_last(), topic).push(e),
            None => parse_events(ls.drop_last(), topic),
        }
    }
}

/// The events that a topic's log file records.
pub open spec fn parse_log(content: Seq<char>, topic: Seq<char>) -> Seq<EventModel> {
    parse_events(text_lines(content), topic)
}

/// The events after `since` (all of them when there is none), in order.
pub open spec fn replayed(s: Seq<EventModel>, since: Option<u64>) -> Seq<EventModel>
    decreases s.len(),
{
    if s.len() == 0 {
        s
    } else {
        let rest = replayed(s.drop_last(), since);
        match since {
            Some(x) => if s.last().seq > x {
                rest.push(s.last())
            } else {
                rest
            },
            None => rest.push(s.last()),
        }
    }
}

/// The `EVENT` frame that replays an event of `topic`.
pub open spec fn event_frame(e: EventModel, topic: Seq<char>) -> FrameModel {
    FrameModel {
        verb: "EVENT"@,
        args: Seq::empty(),
        headers: Map::<Seq<char>, Seq<char>>::empty().insert("Lane"@, decimal(e.lane as nat)).insert(
            "Seq"@,
            decimal(e.seq as nat),
        ).insert("Selector"@, topic),
        body: Some(e.data),
    }
}

/// Sequence numbers strictly increase along `s`.
pub open spec fn seq_increasing(s: Seq<EventModel>) -> bool {
    forall|i: int, j: int| 0 <= i < j < s.len() ==> (#[trigger] s[i]).seq < (#[trigger] s[j]).seq
}

pub proof fn lemma_replayed_from(s: Seq<EventModel>, since: Option<u64>)
    ensures
        forall|i: int| 0 <= i < replayed(s, since).len() ==> s.contains(#[trigger] replayed(s, since)[i]),
        replayed(s, since).len() <= s.len(),
    decreases s.len(),
{
    if s.len() > 0 {
        let d = s.drop_last();
        lemma_replayed_from(d, since);
        let r = replayed(s, since);
        assert forall|i: int| 0 <= i < r.len() implies s.contains(#[trigger] r[i]) by {
            if i < replayed(d, since).len() {
                assert(d.contains(r[i]));
                let k = choose|k: int| 0 <= k < d.len() && d[k] == r[i];
                assert(s[k] == r[i]);
            } else {
                assert(s[s.len() - 1] == r[i]);
            }
        }
    }
}

/// Replay keeps order: when a stream's sequence numbers increase, those of the replayed
/// events increase too, and each lies above `since`.
pub proof fn lemma_replay_ordering(s: Seq<EventModel>, since: Option<u64>)
    requires
        seq_increasing(s),
    ensures
        seq_increasing(replayed(s, since)),
        forall|i: int|
            0 <= i < replayed(s, since).len() ==> match since {
                Some(x) => (#[trigger] replayed(s, since)[i]).seq > x,
                None => true,
            },
    decreases s.len(),
{
    if s.len() > 0 {
        let d = s.drop_last();
        assert(seq_increasing(d));
        lemma_replay_ordering(d, since);
        lemma_replayed_from(d, since);
        let rd = replayed(d, since);
        let r = replayed(s, since);
        assert forall|i: int| 0 <= i < rd.len() implies (#[trigger] rd[i]).seq < s.last().seq by {
            let k = choose|k: int| 0 <= k < d.len() && d[k] == rd[i];
            assert(s[k] == rd[i]);
        }
        assert forall|i: int, j: int| 0 <= i < j < r.len() implies (#[trigger] r[i]).seq < (
        #[trigger] r[j]).seq by {
            if j < rd.len() {
                assert(r[i] == rd[i] && r[j] == rd[j]);
            } else {
                assert(r[i] == rd[i]);
            }
        }
    }
}

/// The log text of a run of events: one line each, in order.
pub open spec fn log_text(es: Seq<EventModel>) -> Seq<char>
    decreases es.len(),
{
    if es.len() == 0 {
        Seq::empty()
    } else {
        log_line(es[0]) + log_text(es.drop_first())
    }
}

/// A log line without its newline.
pub open spec fn line_body(e: EventModel) -> Seq<char> {
    decimal(e.seq as nat) + seq!['\t'] + signed_decimal(e.timestamp as int) + seq!['\t'] + decimal(
        e.lane as nat,
    ) + seq!['\t'] + e.data
}

/// An event of `topic` whose data survives the log format: no tab or newline in it, and
/// no carriage return at its end.
pub open spec fn loggable(e: EventModel, topic: Seq<char>) -> bool {
    &&& e.topic == topic
    &&& forall|i: int| 0 <= i < e.data.len() ==> #[trigger] e.data[i] != '\t' && e.data[i] != '\n'
    &&& e.data.len() > 0 ==> e.data.last() != '\r'
}

pub proof fn lemma_split_single(a: Seq<char>, c: char)
    requires
        forall|i: int| 0 <= i < a.len() ==> #[trigger] a[i] != c,
    ensures
        split_on(a, c) == seq![a],
{
    lemma_char_pos_exact(a, c, a.len() as int);
}

pub proof fn lemma_split_cons(a: Seq<char>, b: Seq<char>, c: char)
    requires
        forall|i: int| 0 <= i < a.len() ==> #[trigger] a[i] != c,
    ensures
        split_on(a + seq![c] + b, c) == seq![a] + split_on(b, c),
{
    let s = a + seq![c] + b;
    assert forall|i: int| 0 <= i < a.len() implies #[trigger] s[i] != c by {
        assert(s[i] == a[i]);
    }
    lemma_char_pos_exact(s, c, a.len() as int);
    assert(s.take(a.len() as int) =~= a);
    assert(s.skip(a.len() + 1int) =~= b);
}

pub proof fn lemma_decimal_no(n: nat, c: char)
    requires
        !('0' <= c && c <= '9'),
    ensures
        forall|i: int| 0 <= i < decimal(n).len() ==> #[trigger] decimal(n)[i] != c,
{
    lemma_decimal_reads_back(n);
}

pub proof fn lemma_signed_decimal_no(n: int, c: char)
    requires
        !('0' <= c && c <= '9'),
        c != '-',
    ensures
        forall|i: int| 0 <= i < signed_decimal(n).len() ==> #[trigger] signed_decimal(n)[i] != c,
{
    if n < 0 {
        let m = (-n) as nat;
        lemma_decimal_no(m, c);
        let s = signed_decimal(n);
        assert forall|i: int| 0 <= i < s.len() implies #[trigger] s[i] != c by {
            if i > 0 {
                assert(s[i] == decimal(m)[i - 1]);
            }
        }
    } else {
        lemma_decimal_no(n as nat, c);
    }
}

pub proof fn lemma_line_body_no_newline(e: EventModel, topic: Seq<char>)
    requires
        loggable(e, topic),
    ensures
        forall|i: int| 0 <= i < line_body(e).len() ==> #[trigger] line_body(e)[i] != '\n',
        line_body(e).len() > 0 && line_body(e).last() != '\r',
{
    let a = decimal(e.seq as nat);
    let b = signed_decimal(e.timestamp as int);
    let c = decimal(e.lane as nat);
    lemma_decimal_no(e.seq as nat, '\n');
    lemma_signed_decimal_no(e.timestamp as int, '\n');
    lemma_decimal_no(e.lane as nat, '\n');
    let l = line_body(e);
    assert forall|i: int| 0 <= i < l.len() implies #[trigger] l[i] != '\n' by {
        let seq_end = a.len() as int;
        let stamp_end = seq_end + 1 + b.len();
        let lane_stop = stamp_end + 1 + c.len();
        if i < seq_end {
            assert(l[i] == a[i]);
        } else if i == seq_end {
        } else if i < stamp_end {
            assert(l[i] == b[i - seq_end - 1]);
        } else if i == stamp_end {
        } else if i < lane_stop {
            assert(l[i] == c[i - stamp_end - 1]);
        } else if i == lane_stop {
        } else {
            assert(l[i] == e.data[i - lane_stop - 1]);
        }
    }
    if e.data.len() > 0 {
        assert(l.last() == e.data.last());
    } else {
        assert(l.last() == '\t');
    }
}

/// The log line of a loggable event reads back as that event.
pub proof fn lemma_parse_line(e: EventModel, topic: Seq<char>)
    requires
        loggable(e, topic),
    ensures
        parse_event(line_body(e), topic) == Some(e),
{
    let a = decimal(e.seq as nat);
    let b = signed_decimal(e.timestamp as int);
    let c = decimal(e.lane as nat);
    lemma_decimal_no(e.seq as nat, '\t');
    lemma_signed_decimal_no(e.timestamp as int, '\t');
    lemma_decimal_no(e.lane as nat, '\t');
    lemma_split_single(e.data, '\t');
    lemma_split_cons(c, e.data, '\t');
    assert(b + seq!['\t'] + (c + seq!['\t'] + e.data) =~= b + seq!['\t'] + c + seq!['\t'] + e.data);
    lemma_split_cons(b, c + seq!['\t'] + e.data, '\t');
    assert(a + seq!['\t'] + (b + seq!['\t'] + c + seq!['\t'] + e.data) =~= line_body(e));
    lemma_split_cons(a, b + seq!['\t'] + c + seq!['\t'] + e.data, '\t');
    let f = split_on(line_body(e), '\t');
    assert(f =~= seq![a, b, c, e.data]);
    lemma_parse_decimal(e.seq as nat);
    lemma_parse_signed_decimal(e.timestamp as int);
    lemma_parse_decimal(e.lane as nat);
}

pub proof fn lemma_split_log(es: Seq<EventModel>, topic: Seq<char>)
    requires
        forall|i: int| 0 <= i < es.len() ==> loggable(#[trigger] es[i], topic),
    ensures
        split_on(log_text(es), '\n') == es.map_values(|e: EventModel| line_body(e)).push(
            Seq::<char>::empty(),
        ),
    decreases es.len(),
{
    let bodies = es.map_values(|e: EventModel| line_body(e));
    if es.len() == 0 {
        lemma_split_single(Seq::<char>::empty(), '\n');
        assert(bodies.push(Seq::<char>::empty()) =~= seq![Seq::<char>::empty()]);
    } else {
        let t = es.drop_first();
        assert(forall|i: int| 0 <= i < t.len() ==> t[i] == es[i + 1]);
        lemma_split_log(t, topic);
        lemma_line_body_no_newline(es[0], topic);
        assert(log_line(es[0]) =~= line_body(es[0]) + seq!['\n']);
        assert(log_text(es) =~= line_body(es[0]) + seq!['\n'] + log_text(t));
        lemma_split_cons(line_body(es[0]), log_text(t), '\n');
        assert(bodies.push(Seq::<char>::empty()) =~= seq![line_body(es[0])] + t.map_values(
            |e: EventModel| line_body(e),
        ).push(Seq::<char>::empty()));
    }
}

pub proof fn lemma_parse_bodies(es: Seq<EventModel>, topic: Seq<char>)
    requires
        forall|i: int| 0 <= i < es.len() ==> loggable(#[trigger] es[i], topic),
    ensures
        parse_events(es.map_values(|e: EventModel| line_body(e)), topic) == es,
    decreases es.len(),
{
    if es.len() > 0 {
        let d = es.drop_last();
        lemma_parse_bodies(d, topic);
        let bodies = es.map_values(|e: EventModel| line_body(e));
        assert(bodies.drop_last() =~= d.map_values(|e: EventModel| line_body(e)));
        lemma_parse_line(es.last(), topic);
        assert(d.push(es.last()) =~= es);
    }
}

/// Writing events to a log and loading it back gives the same events, for events whose
/// data has no tab or newline and does not end in a carriage return.
pub proof fn lemma_log_round_trip(es: Seq<EventModel>, topic: Seq<char>)
    requires
        forall|i: int| 0 <= i < es.len() ==> loggable(#[trigger] es[i], topic),
    ensures
        parse_log(log_text(es), topic) == es,
{
    lemma_split_log(es, topic);
    let bodies = es.map_values(|e: EventModel| line_body(e));
    let p = split_on(log_text(es), '\n');
    assert(p.drop_last() =~= bodies);
    let stripped = p.drop_last().map_values(
        |l: Seq<char>|
            if l.len() > 0 && l.last() == '\r' {
                l.drop_last()
            } else {
                l
            },
    );
    assert forall|i: int| 0 <= i < bodies.len() implies #[trigger] stripped[i] == bodies[i] by {
        lemma_line_body_no_newline(es[i], topic);
    }
    assert(stripped =~= bodies);
    assert(text_lines(log_text(es)) == bodies);
    lemma_parse_bodies(es, topic);
}

/// Event streams keyed by topic.
pub struct ContinuityEngine {
    pub streams: Vec<Stream>,
}

impl View for ContinuityEngine {
    type V = Map<Seq<char>, Seq<EventModel>>;

    open spec fn view(&self) -> Map<Seq<char>, Seq<EventModel>> {
        assoc(stream_entries(self.streams@))
    }
}

impl ContinuityEngine {
    /// An engine with no streams.
    pub fn new() -> (r: ContinuityEngine)
        ensures
            r@ == Map::<Seq<char>, Seq<EventModel>>::empty(),
    {
        ContinuityEngine { streams: Vec::new() }
    }

    /// Position just after the last stream of `topic`, or 0.
    fn find(&self, topic: &str) -> (i: usize)
        ensures
            i <= self.streams@.len(),
            forall|j: int| i <= j < self.streams@.len() ==> (#[trigger] self.streams@[j]).topic@ != topic@,
            i > 0 ==> self.streams@[i - 1].topic@ == topic@,
            i == 0 ==> !self@.contains_key(topic@),
            i > 0 ==> self@.contains_key(topic@) && self@[topic@] == event_views(
                self.streams@[i - 1].events@,
            ),
    {
        let k = topic.to_owned();
        let mut i = self.streams.len();
        while i > 0 && !(self.streams[i - 1].topic == k)
            invariant
                i <= self.streams@.len(),
                k@ == topic@,
                forall|j: int| i <= j < self.streams@.len() ==> (#[trigger] self.streams@[j]).topic@ != topic@,
            decreases i,
        {
            i = i - 1;
        }
        let ghost es = stream_entries(self.streams@);
        proof {
            assert forall|j: int| i <= j < es.len() implies (#[trigger] es[j]).0 != topic@ by {
                assert(es[j].0 == self.streams@[j].topic@);
            }
            if i > 0 {
                lemma_assoc_last(es, topic@, i - 1);
            } else {
                lemma_assoc_absent(es, topic@);
            }
        }
        i
    }

    /// Replace the events of `topic` by `events`.
    fn put_stream(&mut self, topic: &str, events: Vec<StoredEvent>)
        ensures
            final(self)@ == old(self)@.insert(topic@, event_views(events@)),
    {
        let i = self.find(topic);
        let s = Stream { topic: topic.to_owned(), events };
        let ghost e = (s.topic@, event_views(s.events@));
        let ghost es = stream_entries(self.streams@);
        proof {
            assert forall|j: int| i <= j < es.len() implies (#[trigger] es[j]).0 != topic@ by {
                assert(es[j].0 == self.streams@[j].topic@);
            }
        }
        if i > 0 {
            proof {
                lemma_assoc_update(es, i - 1, e);
            }
            self.streams.set(i - 1, s);
            proof {
                assert(stream_entries(self.streams@) =~= es.update(i - 1, e));
            }
        } else {
            proof {
                lemma_assoc_push(es, e);
            }
            self.streams.push(s);
            proof {
                assert(stream_entries(self.streams@) =~= es.push(e));
            }
        }
    }

    /// Take the events of `topic` out, leaving it with none.
    fn take_stream(&mut self, topic: &str) -> (r: Vec<StoredEvent>)
        ensures
            event_views(r@) == stream_of(old(self)@, topic@),
            old(self)@.contains_key(topic@) ==> final(self)@ == old(self)@.insert(
                topic@,
                Seq::<EventModel>::empty(),
            ),
            !old(self)@.contains_key(topic@) ==> final(self)@ == old(self)@,
    {
        let i = self.find(topic);
        if i == 0 {
            return Vec::new();
        }
        let ghost es = stream_entries(self.streams@);
        let s = self.streams.remove(i - 1);
        let Stream { topic: t, events } = s;
        let empty = Stream { topic: t, events: Vec::new() };
        let ghost e = (empty.topic@, event_views(empty.events@));
        self.streams.insert(i - 1, empty);
        proof {
            assert forall|j: int| i <= j < es.len() implies (#[trigger] es[j]).0 != topic@ by {
                assert(es[j].0 == old(self).streams@[j].topic@);
            }
            assert(event_views(Seq::<StoredEvent>::empty()) =~= Seq::<EventModel>::empty());
            lemma_assoc_update(es, i - 1, e);
            assert(stream_entries(self.streams@) =~= es.update(i - 1, e));
        }
        events
    }

    /// The log line that records `e`.
    pub fn event_line(e: &StoredEvent) -> (r: String)
        ensures
            r@ == log_line(e@),
    {
        proof {
            reveal_strlit("\t");
            reveal_strlit("\n");
        }
        let mut line = u64_text(e.seq);
        line.append("\t");
        let ts = i64_text(e.timestamp);
        line.append(ts.as_str());
        line.append("\t");
        let ln = u64_text(e.lane as u64);
        line.append(ln.as_str());
        line.append("\t");
        line.append(e.data.as_str());
        line.append("\n");
        proof {
            assert("\t"@ =~= seq!['\t']);
            assert("\n"@ =~= seq!['\n']);
            assert(line@ =~= log_line(e@));
        }
        line
    }

    /// Add `e` at the end of its topic's stream, once its log line is written.
    pub fn commit(&mut self, e: StoredEvent)
        ensures
            final(self)@ == old(self)@.insert(e.topic@, stream_of(old(self)@, e.topic@).push(e@)),
    {
        let topic = e.topic.clone();
        let mut events = self.take_stream(topic.as_str());
        let ghost ev = e@;
        let ghost before = events@;
        events.push(e);
        proof {
            assert(event_views(events@) =~= event_views(before).push(ev));
        }
        self.put_stream(topic.as_str(), events);
    }

    /// Append an event to `topic` at time `now` and return the line that records it in
    /// the topic's log, for the caller to write.
    pub fn append_at(&mut self, topic: &str, lane: u16, seq: u64, body: &str, now: i64) -> (r:
        String)
        ensures
            ({
                let e = EventModel { seq, timestamp: now, lane, topic: topic@, data: body@ };
                &&& final(self)@ == old(self)@.insert(topic@, stream_of(old(self)@, topic@).push(e))
                &&& r@ == log_line(e)
            }),
    {
        let e = StoredEvent {
            seq,
            timestamp: now,
            lane,
            topic: topic.to_owned(),
            data: body.to_owned(),
        };
        let line = Self::event_line(&e);
        self.commit(e);
        line
    }

    /// Append an event to `topic` now; see `append_at`.
    pub fn append(&mut self, topic: &str, lane: u16, seq: u64, body: &str) -> (r: String)
        ensures
            final(self)@.contains_key(topic@),
            final(self)@[topic@].len() > 0,
            ({
                let t = final(self)@[topic@].last().timestamp;
                let e = EventModel { seq, timestamp: t, lane, topic: topic@, data: body@ };
                &&& final(self)@ == old(self)@.insert(topic@, stream_of(old(self)@, topic@).push(e))
                &&& r@ == log_line(e)
            }),
    {
        let now = now_secs();
        let r = self.append_at(topic, lane, seq, body, now);
        proof {
            let e = EventModel { seq, timestamp: now, lane, topic: topic@, data: body@ };
            assert(self@[topic@].last() == e);
        }
        r
    }

    /// The file name of `topic`'s log.
    pub fn log_path(&self, topic: &str) -> (r: String)
        ensures
            r@ == log_name(topic@),
    {
        let v = chars_of(topic);
        let mut out = String::new();
        let mut i: usize = 0;
        let ghost mapped = topic@.map_values(
            |c: char|
                if c == '/' {
                    '_'
                } else {
                    c
                },
        );
        proof {
            reveal_strlit("_");
        }
        while i < v.len()
            invariant
                i <= v@.len(),
                v@ == topic@,
                "_"@ == seq!['_'],
                mapped == topic@.map_values(
                    |c: char|
                        if c == '/' {
                            '_'
                        } else {
                            c
                        },
                ),
                out@ == mapped.take(i as int),
            decreases v@.len() - i,
        {
            if v[i] == '/' {
                out.append("_");
            } else {
                let piece = slice_string(topic, i, i + 1);
                out.append(piece.as_str());
            }
            proof {
                assert(out@ =~= mapped.take(i + 1));
            }
            i = i + 1;
        }
        out.append(".log");
        proof {
            assert(mapped.take(i as int) =~= mapped);
        }
        out
    }

    /// Replace the events of `topic` by those its log file `content` records.
    pub fn load_topic(&mut self, topic: &str, content: &str)
        ensures
            final(self)@ == old(self)@.insert(topic@, parse_log(content@, topic@)),
    {
        let v = chars_of(content);
        let pieces = split_in(content, &v, 0, v.len(), '\n');
        proof {
            assert(v@.subrange(0, v@.len() as int) =~= v@);
        }
        let ghost pv = views(pieces@);
        let ghost ls = text_lines(content@);
        let n = pieces.len();
        let mut events: Vec<StoredEvent> = Vec::new();
        let mut i: usize = 0;
        while i < n
            invariant
                i <= n,
                n == pieces@.len(),
                n >= 1,
                pv == views(pieces@),
                pv == split_on(content@, '\n'),
                ls == text_lines(content@),
                i < n ==> event_views(events@) == parse_events(ls.take(i as int), topic@),
                i == n ==> event_views(events@) == parse_events(ls, topic@),
            decreases n - i,
        {
            let piece = &pieces[i];
            let last = i + 1 == n;
            let pc = chars_of(piece.as_str());
            if last && pc.len() == 0 {
                proof {
                    assert(ls =~= ls.take(i as int));
                }
            } else {
                let end = if !last && pc.len() > 0 && pc[pc.len() - 1] == '\r' {
                    pc.len() - 1
                } else {
                    pc.len()
                };
                let line = slice_string(piece.as_str(), 0, end);
                let ghost l = line@;
                proof {
                    if last {
                        assert(ls.len() == i + 1);
                        assert(ls[i as int] == pv[i as int]);
                        assert(l =~= pv[i as int]);
                    } else {
                        assert(ls[i as int] == l) by {
                            assert(pv.drop_last()[i as int] == pv[i as int]);
                            if pc.len() > 0 && pc@[pc.len() - 1] == '\r' {
                                assert(l =~= pv[i as int].drop_last());
                            } else {
                                assert(l =~= pv[i as int]);
                            }
                        }
                    }
                    assert(ls.take(i + 1).drop_last() =~= ls.take(i as int));
                    assert(ls.take(i + 1).last() == l);
                }
                let ghost before = events@;
                match read_event(line.as_str(), topic) {
                    Some(e) => {
                        let ghost ev = e@;
                        events.push(e);
                        proof {
                            assert(event_views(events@) =~= event_views(before).push(ev));
                        }
                    },
                    None => {},
                }
                proof {
                    if last {
                        assert(ls.take(i + 1) =~= ls);
                    }
                }
            }
            i = i + 1;
        }
        self.put_stream(topic, events);
    }

    /// The `EVENT` frames that replay `topic` after `since` (all of it when `None`), in
    /// order; each carries `Lane`, `Seq` and `Selector` headers and the event's data.
    pub fn replay(&self, topic: &str, since: Option<u64>) -> (r: Vec<Frame>)
        ensures
            r@.len() == replayed(stream_of(self@, topic@), since).len(),
            forall|i: int|
                0 <= i < r@.len() ==> (#[trigger] r@[i])@ == event_frame(
                    replayed(stream_of(self@, topic@), since)[i],
                    topic@,
                ),
    {
        let idx = self.find(topic);
        let mut out: Vec<Frame> = Vec::new();
        if idx == 0 {
            return out;
        }
        let events = &self.streams[idx - 1].events;
        let ghost s = event_views(events@);
        let mut i: usize = 0;
        while i < events.len()
            invariant
                i <= events@.len(),
                s == event_views(events@),
                out@.len() == replayed(s.take(i as int), since).len(),
                forall|j: int|
                    0 <= j < out@.len() ==> (#[trigger] out@[j])@ == event_frame(
                        replayed(s.take(i as int), since)[j],
                        topic@,
                    ),
            decreases events@.len() - i,
        {
            let e = &events[i];
            proof {
                assert(s.take(i + 1).drop_last() =~= s.take(i as int));
                assert(s.take(i + 1).last() == e@);
            }
            let keep = match since {
                Some(x) => e.seq > x,
                None => true,
            };
            proof {
                if !keep {
                    assert(replayed(s.take(i + 1), since) == replayed(s.take(i as int), since));
                }
            }
            if keep {
                let mut frame = Frame::new("EVENT");
                let lane_text = u64_text(e.lane as u64);
                frame.set_header("Lane", lane_text.as_str());
                let seq_text = u64_text(e.seq);
                frame.set_header("Seq", seq_text.as_str());
                frame.set_header("Selector", topic);
                frame.body = Some(e.data.clone());
                let ghost before = out@;
                proof {
                    assert(frame@.headers =~= event_frame(e@, topic@).headers);
                    assert(frame@.args =~= Seq::<Seq<char>>::empty());
                    assert(frame@ == event_frame(e@, topic@));
                    assert(replayed(s.take(i + 1), since) == replayed(s.take(i as int), since).push(
                        e@,
                    ));
                }
                out.push(frame);
                proof {
                    assert forall|j: int| 0 <= j < out@.len() implies (#[trigger] out@[j])@
                        == event_frame(replayed(s.take(i + 1), since)[j], topic@) by {
                        if j < before.len() {
                            assert(out@[j] == before[j]);
                        }
                    }
                }
            }
            i = i + 1;
        }
        proof {
            assert(s.take(i as int) =~= s);
        }
        out
    }

    /// Keep at most the newest `max_events` events of `topic` in memory.
    pub fn prune(&mut self, topic: &str, max_events: usize)
        ensures
            ({
                let s = stream_of(old(self)@, topic@);
                if old(self)@.contains_key(topic@) && s.len() > max_events {
                    final(self)@ == old(self)@.insert(topic@, s.skip(s.len() - max_events))
                } else {
                    final(self)@ == old(self)@
                }
            }),
    {
        let idx = self.find(topic);
        if idx == 0 {
            return ;
        }
        let len = self.streams[idx - 1].events.len();
        if len <= max_events {
            return ;
        }
        let drop = len - max_events;
        let events = &self.streams[idx - 1].events;
        let ghost s = event_views(events@);
        let mut kept: Vec<StoredEvent> = Vec::new();
        let mut i: usize = drop;
        while i < len
            invariant
                drop <= i <= len,
                len == events@.len(),
                s == event_views(events@),
                event_views(kept@) == s.subrange(drop as int, i as int),
            decreases len - i,
        {
            let e = copy_event(&events[i]);
            let ghost before = kept@;
            kept.push(e);
            proof {
                assert(event_views(kept@) =~= event_views(before).push(s[i as int]));
                assert(event_views(kept@) =~= s.subrange(drop as int, i + 1));
            }
            i = i + 1;
        }
        proof {
            assert(s.subrange(drop as int, len as int) =~= s.skip(s.len() - max_events));
        }
        self.put_stream(topic, kept);
    }
}

/// The event that a log line records, or `None` when it has fewer than four fields.
pub fn read_event(line: &str, topic: &str) -> (r: Option<StoredEvent>)
    ensures
        match r {
            Some(e) => parse_event(line@, topic@) == Some(e@),
            None => parse_event(line@, topic@).is_none(),
        },
{
    let v = chars_of(line);
    let f = split_in(line, &v, 0, v.len(), '\t');
    proof {
        assert(v@.subrange(0, v@.len() as int) =~= line@);
    }
    if f.len() < 4 {
        return None;
    }
    let seq = match parse_u64(f[0].as_str()) {
        Some(x) => x,
        None => 0,
    };
    let timestamp = match parse_i64(f[1].as_str()) {
        Some(x) => x,
        None => 0,
    };
    let lane = match parse_u16(f[2].as_str()) {
        Some(x) => x,
        None => 0,
    };
    Some(
        StoredEvent {
            seq,
            timestamp,
            lane,
            topic: topic.to_owned(),
            data: f[3].clone(),
        },
    )
}

} // verus!
