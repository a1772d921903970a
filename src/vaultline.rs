use crate::clock::now_millis;
use crate::module::Result;
use vstd::prelude::*;

verus! {

#[verifier::external_type_specification]
#[verifier::external_body]
pub struct ExValue(serde_json::Value);

/// Whether a JSON value is `null`.
pub uninterp spec fn json_is_null(v: serde_json::Value) -> bool;

/// Whether a JSON value is an object with no entries.
pub uninterp spec fn json_is_empty_object(v: serde_json::Value) -> bool;

/// Relies on serde_json::Value::is_null: whether the value is `Value::Null`.
pub assume_specification[ serde_json::Value::is_null ](v: &serde_json::Value) -> (r: bool)
    ensures
        r == json_is_null(*v),
;

/// Relies on serde_json::Value's derived `Clone`: an equal, independent copy.
pub assume_specification[ <serde_json::Value as Clone>::clone ](v: &serde_json::Value) -> (r:
    serde_json::Value)
    ensures
        r == *v,
;

/// Relies on serde_json::Value::Null, which `is_null` reports as null.
#[verifier::external_body]
fn null_value() -> (r: serde_json::Value)
    ensures
        json_is_null(r),
{
    serde_json::Value::Null
}

/// Relies on serde_json::Map::new, wrapped in `Value::Object`: an empty JSON
/// object, which `is_null` does not report as null.
#[verifier::external_body]
fn empty_object() -> (r: serde_json::Value)
    ensures
        json_is_empty_object(r),
        !json_is_null(r),
{
    serde_json::Value::Object(serde_json::Map::new())
}

/// Minimum shape for logging and auditing.
#[derive(Debug, PartialEq)]
pub struct Event {
    /// Milliseconds since the Unix epoch.
    pub ts_ms: u128,
    pub source: String,
    pub level: String,
    pub message: String,
    /// Structured payload; `null` when absent.
    pub kv: serde_json::Value,
}

impl Clone for Event {
    fn clone(&self) -> (r: Self)
        ensures
            r == *self,
    {
        Event {
            ts_ms: self.ts_ms,
            source: self.source.clone(),
            level: self.level.clone(),
            message: self.message.clone(),
            kv: self.kv.clone(),
        }
    }
}

impl Event {
    /// Create a new event with the current time and a `null` payload.
    pub fn now(source: &str, level: &str, message: &str) -> (r: Event)
        ensures
            r.source@ == source@,
            r.level@ == level@,
            r.message@ == message@,
            json_is_null(r.kv),
    {
        Event {
            ts_ms: now_millis(),
            source: source.to_owned(),
            level: level.to_owned(),
            message: message.to_owned(),
            kv: null_value(),
        }
    }
}

/// The events of a replay that decoded, in order.
pub open spec fn decoded_events(records: Seq<Option<Event>>) -> Seq<Event>
    decreases records.len(),
{
    if records.len() == 0 {
        Seq::empty()
    } else {
        let r = decoded_events(records.drop_last());
        match records.last() {
            Some(e) => r.push(e),
            None => r,
        }
    }
}

/// `n` if `n` is at most `len`, else `len`.
pub open spec fn tail_len(n: usize, len: nat) -> nat {
    if n <= len {
        n as nat
    } else {
        len
    }
}

/// Append-only event log: the events in insertion order, and the path of the
/// file that backs them, if any.
///
/// The log keeps the in-memory side. Its owner writes each record to the
/// backing file, one line per event, and hands the event to `append` once the
/// write has succeeded, so that memory never holds an event the file lacks.
pub struct Vaultline {
    mem: Vec<Event>,
    file: Option<String>,
}

impl View for Vaultline {
    type V = Seq<Event>;

    closed spec fn view(&self) -> Seq<Event> {
        self.mem@
    }
}

impl Vaultline {
    /// The path of the backing file, if any.
    pub closed spec fn backing(&self) -> Option<Seq<char>> {
        match self.file {
            Some(p) => Some(p@),
            None => None,
        }
    }

    /// A log backed by the file at `path`, with nothing in memory yet; the
    /// file's records are read in by `load_records`.
    pub fn new(path: &str) -> (r: Self)
        ensures
            r@.len() == 0,
            r.backing() == Some(path@),
    {
        Vaultline { mem: Vec::new(), file: Some(path.to_owned()) }
    }

    /// Create an in-memory only vaultline (no file).
    pub fn new_in_memory() -> (r: Self)
        ensures
            r@.len() == 0,
            r.backing() is None,
    {
        Vaultline { mem: Vec::new(), file: None }
    }

    /// The path of the backing file, if any.
    pub fn file_path(&self) -> (r: Option<String>)
        ensures
            match r {
                Some(p) => self.backing() == Some(p@),
                None => self.backing() is None,
            },
    {
        match &self.file {
            Some(p) => Some(p.clone()),
            None => None,
        }
    }

    /// Append an event at the end of the log.
    pub fn append(&mut self, event: Event) -> (r: Result<()>)
        ensures
            final(self)@ == old(self)@.push(event),
            final(self).backing() == old(self).backing(),
            r is Ok,
    {
        self.mem.push(event);
        Ok(())
    }

    /// The last `n` events, oldest first (all of them when fewer are held).
    pub fn tail(&self, n: usize) -> (r: Vec<&Event>)
        ensures
            r@.len() == tail_len(n, self@.len()),
            forall|i: int|
                0 <= i < r@.len() ==> *#[trigger] r@[i] == self@[self@.len() - r@.len() + i],
    {
        let len = self.mem.len();
        let start = len.saturating_sub(n);
        let mut r: Vec<&Event> = Vec::new();
        let mut i: usize = start;
        while i < len
            invariant
                len == self.mem@.len(),
                start == len - tail_len(n, len as nat),
                start <= i <= len,
                r@.len() == i - start,
                forall|k: int| 0 <= k < r@.len() ==> *#[trigger] r@[k] == self.mem@[start + k],
            decreases len - i,
        {
            r.push(&self.mem[i]);
            i = i + 1;
        }
        r
    }

    /// Every event in memory, oldest first.
    pub fn all(&self) -> (r: &[Event])
        ensures
            r@ == self@,
    {
        self.mem.as_slice()
    }

    /// Fill in defaults for an incompletely populated event, with `now` as the
    /// current time: empty level, source and message become "info", "unknown"
    /// and "(no message)", a zero timestamp becomes `now`, and a `null`
    /// payload becomes an empty object. Other fields are kept.
    pub fn normalize_event_at(ev: &mut Event, now: u128)
        ensures
            old(ev).level@.len() == 0 ==> final(ev).level@ == "info"@,
            old(ev).level@.len() != 0 ==> final(ev).level == old(ev).level,
            old(ev).source@.len() == 0 ==> final(ev).source@ == "unknown"@,
            old(ev).source@.len() != 0 ==> final(ev).source == old(ev).source,
            old(ev).message@.len() == 0 ==> final(ev).message@ == "(no message)"@,
            old(ev).message@.len() != 0 ==> final(ev).message == old(ev).message,
            final(ev).ts_ms == (if old(ev).ts_ms == 0 { now } else { old(ev).ts_ms }),
            json_is_null(old(ev).kv) ==> json_is_empty_object(final(ev).kv),
            json_is_null(old(ev).kv) ==> !json_is_null(final(ev).kv),
            !json_is_null(old(ev).kv) ==> final(ev).kv == old(ev).kv,
    {
        if ev.level.as_str().is_empty() {
            ev.level = "info".to_owned();
        }
        if ev.source.as_str().is_empty() {
            ev.source = "unknown".to_owned();
        }
        if ev.message.as_str().is_empty() {
            ev.message = "(no message)".to_owned();
        }
        if ev.ts_ms == 0 {
            ev.ts_ms = now;
        }
        if ev.kv.is_null() {
            ev.kv = empty_object();
        }
    }

    /// Fill in defaults for an incompletely populated event, taking the
    /// current time from the clock.
    pub fn normalize_event(ev: &mut Event)
        ensures
            old(ev).level@.len() == 0 ==> final(ev).level@ == "info"@,
            old(ev).level@.len() != 0 ==> final(ev).level == old(ev).level,
            old(ev).source@.len() == 0 ==> final(ev).source@ == "unknown"@,
            old(ev).source@.len() != 0 ==> final(ev).source == old(ev).source,
            old(ev).message@.len() == 0 ==> final(ev).message@ == "(no message)"@,
            old(ev).message@.len() != 0 ==> final(ev).message == old(ev).message,
            old(ev).ts_ms != 0 ==> final(ev).ts_ms == old(ev).ts_ms,
            json_is_null(old(ev).kv) ==> json_is_empty_object(final(ev).kv),
            json_is_null(old(ev).kv) ==> !json_is_null(final(ev).kv),
            !json_is_null(old(ev).kv) ==> final(ev).kv == old(ev).kv,
    {
        let now = now_millis();
        Vaultline::normalize_event_at(ev, now);
    }

    /// Replay decoded records into memory, in order: `Some(event)` for a line
    /// of the backing file that parsed, `None` for one that did not. Lines
    /// that did not parse are skipped. Returns the number of events loaded.
    pub fn load_records(&mut self, records: Vec<Option<Event>>) -> (n: usize)
        ensures
            final(self)@ == old(self)@ + decoded_events(records@),
            n == decoded_events(records@).len(),
            final(self).backing() == old(self).backing(),
    {
        let ghost orig = records@;
        let mut records = records;
        let mut stack: Vec<Event> = Vec::new();
        while records.len() > 0
            invariant
                decoded_events(orig) == decoded_events(records@) + stack@.reverse(),
            decreases records@.len(),
        {
            let ghost before = records@;
            let ghost st = stack@;
            let item = records.pop();
            proof {
                assert(records@ == before.drop_last());
            }
            match item {
                Some(Some(e)) => {
                    stack.push(e);
                    proof {
                        assert(stack@.reverse() =~= seq![e] + st.reverse());
                        assert(decoded_events(before) == decoded_events(records@).push(e));
                        assert(decoded_events(records@).push(e) + st.reverse() =~= decoded_events(
                            records@,
                        ) + (seq![e] + st.reverse()));
                    }
                },
                _ => {},
            }
        }
        proof {
            assert(decoded_events(records@) == Seq::<Event>::empty());
            assert(decoded_events(orig) =~= stack@.reverse());
        }
        let ghost start = self.mem@;
        let start_len = self.mem.len();
        while stack.len() > 0
            invariant
                self.mem@ + stack@.reverse() == start + decoded_events(orig),
                start_len == start.len(),
                self.mem@.len() >= start_len,
                self.file == old(self).file,
            decreases stack@.len(),
        {
            let ghost st = stack@;
            let ghost m = self.mem@;
            let e = stack.pop().unwrap();
            proof {
                assert(st.reverse() =~= seq![e] + stack@.reverse());
                assert(m.push(e) + stack@.reverse() =~= m + st.reverse());
            }
            self.mem.push(e);
        }
        proof {
            assert(stack@.reverse() =~= Seq::<Event>::empty());
            assert(self.mem@ =~= start + decoded_events(orig));
        }
        self.mem.len() - start_len
    }
}

/// Every event as a record that decoded.
pub open spec fn as_records(events: Seq<Event>) -> Seq<Option<Event>> {
    events.map_values(|e: Event| Some(e))
}

/// Replay keeps every decoded record, in order, and drops only the records
/// that failed to decode: `n` good lines followed by a corrupt one load as
/// exactly those `n` events.
pub proof fn law_replay_skips_corrupt(events: Seq<Event>)
    ensures
        decoded_events(as_records(events)) == events,
        decoded_events(as_records(events).push(None)) == events,
    decreases events.len(),
{
    let recs = as_records(events);
    if events.len() > 0 {
        law_replay_skips_corrupt(events.drop_last());
        assert(recs.drop_last() =~= as_records(events.drop_last()));
        assert(events.drop_last().push(events.last()) =~= events);
    } else {
        assert(recs =~= Seq::<Option<Event>>::empty());
    }
    assert(recs.push(None).drop_last() =~= recs);
    assert(decoded_events(recs.push(None)) == decoded_events(recs));
}

} // verus!
