//! The trace recorder: a bounded log of timeline events that drops the
//! oldest event when full, and the Chrome trace format the events are
//! exported in. The events' contents, times and thread numbers come from
//! the caller.

use vstd::prelude::*;

use crate::text::{decimal, decimal_exec, extend_chars, extend_str, string_from_chars};

verus! {

/// A bounded log of events.
#[derive(Debug, Clone)]
pub struct TraceRecorder<E> {
    pub events: Vec<E>,
    pub max_events: usize,
    pub dropped_events: usize,
}

impl<E> TraceRecorder<E> {
    /// An empty log holding at most 2048 events.
    pub fn new() -> (res: Self)
        ensures
            res.events@ == Seq::<E>::empty(),
            res.max_events == 2048,
            res.dropped_events == 0,
    {
        TraceRecorder { events: Vec::with_capacity(1000), max_events: 2048, dropped_events: 0 }
    }

    /// Append an event. When the log is full, the oldest event is dropped
    /// first and counted.
    pub fn record(&mut self, event: E)
        requires
            old(self).events@.len() >= old(self).max_events ==> old(self).events@.len() > 0
                && old(self).dropped_events < usize::MAX,
        ensures
            final(self).max_events == old(self).max_events,
            old(self).events@.len() >= old(self).max_events ==> final(self).events@
                == old(self).events@.drop_first().push(event) && final(self).dropped_events == old(self).dropped_events + 1,
            old(self).events@.len() < old(self).max_events ==> final(self).events@
                == old(self).events@.push(event) && final(self).dropped_events == old(self).dropped_events,
    {
        if self.events.len() >= self.max_events {
            self.events.remove(0);
            self.dropped_events = self.dropped_events + 1;
        }
        self.events.push(event);
    }

    /// Empty the log and reset the count of dropped events.
    pub fn clear(&mut self)
        ensures
            final(self).events@ == Seq::<E>::empty(),
            final(self).dropped_events == 0,
            final(self).max_events == old(self).max_events,
    {
        self.events.clear();
        self.dropped_events = 0;
    }
}

/// Law: a log made by `new` never holds more than its bound, whatever
/// is recorded.
pub proof fn lemma_record_bounded<E>(before: Seq<E>, max: usize, event: E)
    requires
        before.len() <= max,
        max > 0,
    ensures
        (if before.len() >= max {
            before.drop_first().push(event)
        } else {
            before.push(event)
        }).len() <= max,
{
}

// ─── Chrome trace format ─────────────────────────────────────────

/// An exported event: its name, phase (`B` begin, `E` end, `i` instant),
/// time in microseconds and thread number.
pub type TraceRow = (Seq<char>, Seq<char>, u64, u32);

/// One event as a line of the Chrome trace format.
pub open spec fn trace_line(r: TraceRow) -> Seq<char> {
    "  {\"name\": \""@ + r.0 + "\", \"cat\": \"engine\", \"ph\": \""@ + r.1 + "\", \"ts\": "@
        + decimal(r.2 as nat) + ", \"pid\": 1, \"tid\": "@ + decimal(r.3 as nat) + "}"@
}

/// The Chrome trace document for some events: nothing when there are
/// none, else a JSON array with one event per line.
pub open spec fn chrome_trace(rows: Seq<TraceRow>) -> Seq<char> {
    if rows.len() == 0 {
        Seq::empty()
    } else {
        "[\n"@ + separated_lines(rows) + "]\n"@
    }
}

/// The event lines, each followed by `,\n` except the last, followed by
/// `\n`.
pub open spec fn separated_lines(rows: Seq<TraceRow>) -> Seq<char>
    decreases rows.len(),
{
    if rows.len() == 0 {
        Seq::empty()
    } else if rows.len() == 1 {
        trace_line(rows[0]) + "\n"@
    } else {
        trace_line(rows[0]) + ",\n"@ + separated_lines(rows.drop_first())
    }
}

/// The views of exported events.
pub open spec fn row_views(rows: Seq<(&str, &str, u64, u32)>) -> Seq<TraceRow> {
    rows.map_values(|r: (&str, &str, u64, u32)| (r.0@, r.1@, r.2, r.3))
}

fn push_line(out: &mut Vec<char>, r: &(&str, &str, u64, u32))
    ensures
        final(out)@ == old(out)@ + trace_line((r.0@, r.1@, r.2, r.3)),
{
    extend_str(out, "  {\"name\": \"");
    extend_str(out, r.0);
    extend_str(out, "\", \"cat\": \"engine\", \"ph\": \"");
    extend_str(out, r.1);
    extend_str(out, "\", \"ts\": ");
    extend_chars(out, decimal_exec(r.2 as u128).as_slice());
    extend_str(out, ", \"pid\": 1, \"tid\": ");
    extend_chars(out, decimal_exec(r.3 as u128).as_slice());
    extend_str(out, "}");
}

/// The Chrome trace document for some events (see `chrome_trace`).
pub fn format_chrome_trace(rows: &[(&str, &str, u64, u32)]) -> (res: String)
    ensures
        res@ == chrome_trace(row_views(rows@)),
{
    let ghost all = row_views(rows@);
    if rows.len() == 0 {
        return String::new();
    }
    let mut out: Vec<char> = Vec::new();
    extend_str(&mut out, "[\n");
    assert(out@ =~= "[\n"@);
    assert(all.skip(0) =~= all);
    let mut i: usize = 0;
    while i < rows.len()
        invariant
            0 < rows@.len(),
            i <= rows@.len(),
            all == row_views(rows@),
            out@ + separated_lines(all.skip(i as int)) == "[\n"@ + separated_lines(all),
        decreases rows@.len() - i,
    {
        let ghost rest = all.skip(i as int);
        assert(rest[0] == (rows@[i as int].0@, rows@[i as int].1@, rows@[i as int].2, rows@[i as int].3));
        assert(rest.drop_first() =~= all.skip(i as int + 1));
        push_line(&mut out, &rows[i]);
        if i + 1 < rows.len() {
            extend_str(&mut out, ",\n");
        } else {
            extend_str(&mut out, "\n");
            assert(all.skip(i as int + 1).len() == 0);
        }
        i += 1;
        proof {
            if i < rows@.len() {
                assert(rest.len() > 1);
            } else {
                assert(rest.len() == 1);
            }
        }
    }
    assert(all.skip(i as int) =~= Seq::<TraceRow>::empty());
    extend_str(&mut out, "]\n");
    string_from_chars(out.as_slice())
}

} // verus!
