//! The append-only progress log: immutable reading-position events keyed by a
//! content-derived document hash, and the scan that answers "most recent
//! position for this document".

use vstd::prelude::*;
use std::collections::hash_map::DefaultHasher;
use std::hash::Hasher;
use vstd::std_specs::hash::DefaultHasherAdditionalSpecFns;
use vstd::utf8::encode_utf8;

verus! {

/// One immutable progress event. Many events may share a `document_hash`;
/// the log only ever appends, never updates or deletes.
///
/// The percentage of a document read is not stored: it is determined by
/// `offset` and `total_lines` (one hundred times their quotient), see
/// [`spec_percent_centi`].
#[derive(Clone, Copy, PartialEq, Eq, Structural, Debug)]
pub struct ProgressEvent {
    /// Milliseconds since the Unix epoch.
    pub timestamp: u64,
    /// Content-derived identity of the document the position belongs to.
    pub document_hash: u64,
    /// Scroll offset (index of the first visible line) when recorded.
    pub offset: u64,
    /// Number of lines of the document when recorded.
    pub total_lines: u64,
}

impl ProgressEvent {
    /// A recorded position never lies past the end of the document.
    pub open spec fn wf(self) -> bool {
        self.offset <= self.total_lines
    }
}

/// The percentage `100 * offset / total` in hundredths of a percent,
/// rounded towards zero; zero for an empty document.
pub open spec fn spec_percent_centi(offset: int, total: int) -> int {
    if total == 0 {
        0
    } else {
        10000 * offset / total
    }
}

/// The percentage `100 * offset / total` rounded to the nearest whole
/// percent (half rounds up); zero for an empty document.
pub open spec fn spec_percent_round(offset: int, total: int) -> int {
    if total == 0 {
        0
    } else {
        (200 * offset + total) / (2 * total)
    }
}

/// Executable form of [`spec_percent_centi`].
pub fn percent_centi(offset: u64, total: u64) -> (r: u64)
    requires
        offset <= total,
    ensures
        r == spec_percent_centi(offset as int, total as int),
        r <= 10000,
{
    if total == 0 {
        0
    } else {
        let num: u128 = 10000u128 * (offset as u128);
        let q: u128 = num / (total as u128);
        proof {
            vstd::arithmetic::div_mod::lemma_div_is_ordered(
                10000 * (offset as int),
                10000 * (total as int),
                total as int,
            );
            vstd::arithmetic::div_mod::lemma_div_by_multiple(10000, total as int);
        }
        q as u64
    }
}

/// Executable form of [`spec_percent_round`].
pub fn percent_round(offset: u64, total: u64) -> (r: u64)
    requires
        offset <= total,
    ensures
        r == spec_percent_round(offset as int, total as int),
        r <= 100,
{
    if total == 0 {
        0
    } else {
        let num: u128 = 200u128 * (offset as u128) + (total as u128);
        let q: u128 = num / (2u128 * (total as u128));
        proof {
            vstd::arithmetic::div_mod::lemma_div_is_ordered(
                200 * (offset as int) + total,
                200 * (total as int) + total,
                2 * (total as int),
            );
            assert((200 * (total as int) + total) / (2 * (total as int)) <= 100) by {
                vstd::arithmetic::div_mod::lemma_div_multiples_vanish_fancy(
                    100,
                    total as int,
                    2 * (total as int),
                );
            }
        }
        q as u64
    }
}

/// The "current" progress for a hash: among the events with that hash, the
/// one with the greatest timestamp; on equal timestamps the one appended
/// last. `None` when no event matches.
pub open spec fn spec_latest(events: Seq<ProgressEvent>, document_hash: u64) -> Option<ProgressEvent>
    decreases events.len(),
{
    if events.len() == 0 {
        None::<ProgressEvent>
    } else {
        let prior = spec_latest(events.drop_last(), document_hash);
        let last = events.last();
        if last.document_hash == document_hash {
            match prior {
                None => Some(last),
                Some(p) => if p.timestamp <= last.timestamp {
                    Some(last)
                } else {
                    Some(p)
                },
            }
        } else {
            prior
        }
    }
}

/// What `spec_latest` selects, spelled out: it returns `None` exactly when
/// no event carries the hash, and otherwise an event of the log that
/// carries the hash and whose timestamp is greatest among those — however
/// the events are ordered in the log.
pub proof fn lemma_latest_is_newest(events: Seq<ProgressEvent>, document_hash: u64)
    ensures
        spec_latest(events, document_hash) is None <==> (forall|i: int|
            0 <= i < events.len() ==> events[i].document_hash != document_hash),
        spec_latest(events, document_hash) matches Some(e) ==> {
            &&& exists|i: int| 0 <= i < events.len() && events[i] == e
            &&& e.document_hash == document_hash
            &&& forall|i: int|
                0 <= i < events.len() && events[i].document_hash == document_hash
                    ==> events[i].timestamp <= e.timestamp
        },
    decreases events.len(),
{
    if events.len() > 0 {
        lemma_latest_is_newest(events.drop_last(), document_hash);
        assert forall|i: int| 0 <= i < events.len() - 1 implies events.drop_last()[i] == events[i] by {}
        let r = spec_latest(events, document_hash);
        let prior = spec_latest(events.drop_last(), document_hash);
        if r is Some {
            let e = r->Some_0;
            if e == events.last() {
                assert(0 <= events.len() - 1 < events.len() && events[events.len() - 1] == e);
            } else {
                assert(prior == Some(e));
                let j = choose|j: int|
                    0 <= j < events.drop_last().len() && events.drop_last()[j] == e;
                assert(0 <= j < events.len() && events[j] == e);
            }
        }
    }
}

/// Recording is immediately visible: after appending an event whose
/// timestamp is no older than every event already stored for the same
/// hash, that event is the one `spec_latest` returns — so the position
/// (and with it the percentage `100 * offset / total_lines`) read back is
/// the one just recorded.
pub proof fn lemma_latest_after_record(events: Seq<ProgressEvent>, e: ProgressEvent)
    requires
        forall|i: int|
            0 <= i < events.len() && events[i].document_hash == e.document_hash
                ==> events[i].timestamp <= e.timestamp,
    ensures
        spec_latest(events.push(e), e.document_hash) == Some(e),
{
    let pushed = events.push(e);
    assert(pushed.drop_last() =~= events);
    assert(pushed.last() == e);
    lemma_latest_is_newest(events, e.document_hash);
    let prior = spec_latest(events, e.document_hash);
    if prior is Some {
        assert(prior->Some_0.timestamp <= e.timestamp);
    }
}

/// Insertion order does not matter: two logs holding the same events —
/// however they are ordered — agree on the latest event for a hash, as
/// long as no two events for that hash share a timestamp.
pub proof fn lemma_latest_order_insensitive(
    a: Seq<ProgressEvent>,
    b: Seq<ProgressEvent>,
    document_hash: u64,
)
    requires
        a.to_multiset() == b.to_multiset(),
        forall|i: int, j: int|
            0 <= i < a.len() && 0 <= j < a.len() && i != j && a[i].document_hash == document_hash
                && a[j].document_hash == document_hash ==> a[i].timestamp != a[j].timestamp,
    ensures
        spec_latest(a, document_hash) == spec_latest(b, document_hash),
{
    broadcast use vstd::seq_lib::group_to_multiset_ensures;

    lemma_latest_is_newest(a, document_hash);
    lemma_latest_is_newest(b, document_hash);
    let ra = spec_latest(a, document_hash);
    let rb = spec_latest(b, document_hash);
    if ra is None && rb is Some {
        let e = rb->Some_0;
        assert(b.contains(e));
        assert(a.to_multiset().count(e) > 0);
        assert(a.contains(e));
        let i = choose|i: int| 0 <= i < a.len() && a[i] == e;
        assert(false);
    } else if ra is Some && rb is None {
        let e = ra->Some_0;
        assert(a.contains(e));
        assert(b.to_multiset().count(e) > 0);
        assert(b.contains(e));
        let i = choose|i: int| 0 <= i < b.len() && b[i] == e;
        assert(false);
    } else if ra is Some && rb is Some {
        let ea = ra->Some_0;
        let eb = rb->Some_0;
        assert(a.contains(ea));
        assert(b.contains(eb));
        assert(b.to_multiset().count(ea) > 0);
        assert(b.contains(ea));
        assert(a.to_multiset().count(eb) > 0);
        assert(a.contains(eb));
        let i = choose|i: int| 0 <= i < a.len() && a[i] == ea;
        let j = choose|j: int| 0 <= j < a.len() && a[j] == eb;
        assert(eb.timestamp <= ea.timestamp);
        let k = choose|k: int| 0 <= k < b.len() && b[k] == ea;
        assert(ea.timestamp <= eb.timestamp);
        if i != j {
            assert(a[i].timestamp != a[j].timestamp);
            assert(false);
        }
    }
}

/// The in-memory form of the log: the ordered sequence of events, oldest
/// first. A file-backed store holds one encoded event per line in the same
/// order.
pub struct ProgressLog {
    pub events: Vec<ProgressEvent>,
}

impl ProgressLog {
    /// An empty log.
    pub fn new() -> (r: Self)
        ensures
            r.events@ =~= Seq::<ProgressEvent>::empty(),
    {
        ProgressLog { events: Vec::new() }
    }

    /// Appends one event with the given timestamp. The log is append-only:
    /// everything already stored is kept unchanged.
    pub fn record_at(&mut self, timestamp: u64, document_hash: u64, offset: u64, total_lines: u64)
        requires
            offset <= total_lines,
        ensures
            final(self).events@ =~= old(self).events@.push(
                ProgressEvent { timestamp, document_hash, offset, total_lines },
            ),
    {
        self.events.push(ProgressEvent { timestamp, document_hash, offset, total_lines });
    }

    /// Appends one event stamped with the current wall-clock time. Nothing
    /// is assumed of the clock: the new event's timestamp may be anything.
    pub fn record(&mut self, document_hash: u64, offset: u64, total_lines: u64)
        requires
            offset <= total_lines,
        ensures
            final(self).events@.len() == old(self).events@.len() + 1,
            final(self).events@.subrange(0, old(self).events@.len() as int) =~= old(self).events@,
            final(self).events@.last().document_hash == document_hash,
            final(self).events@.last().offset == offset,
            final(self).events@.last().total_lines == total_lines,
    {
        let timestamp = now_millis();
        self.record_at(timestamp, document_hash, offset, total_lines);
        proof {
            assert(final(self).events@.last() == ProgressEvent {
                timestamp,
                document_hash,
                offset,
                total_lines,
            });
        }
    }

    /// Scans the whole log for the most recent event with the given hash.
    pub fn latest(&self, document_hash: u64) -> (r: Option<ProgressEvent>)
        ensures
            r == spec_latest(self.events@, document_hash),
    {
        let mut best: Option<ProgressEvent> = None;
        let mut i: usize = 0;
        while i < self.events.len()
            invariant
                i <= self.events.len(),
                best == spec_latest(self.events@.take(i as int), document_hash),
            decreases self.events.len() - i,
        {
            let e = self.events[i];
            proof {
                assert(self.events@.take(i + 1).drop_last() =~= self.events@.take(i as int));
                assert(self.events@.take(i + 1).last() == self.events@[i as int]);
            }
            if e.document_hash == document_hash {
                match best {
                    None => {
                        best = Some(e);
                    },
                    Some(p) => {
                        if p.timestamp <= e.timestamp {
                            best = Some(e);
                        }
                    },
                }
            }
            i += 1;
        }
        proof {
            assert(self.events@.take(self.events@.len() as int) =~= self.events@);
        }
        best
    }
}

/// Relies on `std::time::SystemTime::now` for the current wall-clock
/// time, read as whole milliseconds since the Unix epoch; a clock set
/// before the epoch reads as zero. Neither call aborts, and nothing is
/// assumed of the value returned.
#[verifier::external_body]
fn now_millis() -> u64 {
    match std::time::SystemTime::now().duration_since(std::time::UNIX_EPOCH) {
        Ok(d) => d.as_millis() as u64,
        Err(_) => 0,
    }
}

/// The write calls a document's lines feed to a hasher: each line's UTF-8
/// bytes followed by a one-byte separator, so that the grouping of the
/// same text into lines is part of the identity.
pub open spec fn spec_hash_writes(lines: Seq<Seq<char>>) -> Seq<Seq<u8>>
    decreases lines.len(),
{
    if lines.len() == 0 {
        Seq::<Seq<u8>>::empty()
    } else {
        spec_hash_writes(lines.drop_last()).push(encode_utf8(lines.last())).push(seq![0xffu8])
    }
}

/// The document identity: what the standard hasher returns for the write
/// calls of [`spec_hash_writes`]. A function of the content alone, so
/// identical content — not identical files — yields identical identity.
pub open spec fn spec_document_hash(lines: Seq<Seq<char>>) -> u64 {
    DefaultHasher::spec_finish(spec_hash_writes(lines))
}

/// Hashes the full content of a line buffer into its document identity.
pub fn generate_hash(lines: &Vec<String>) -> (h: u64)
    ensures
        h == spec_document_hash(lines.deep_view()),
{
    let mut hasher = DefaultHasher::new();
    let mut sep: Vec<u8> = Vec::new();
    sep.push(0xff);
    let mut i: usize = 0;
    while i < lines.len()
        invariant
            i <= lines.len(),
            sep@ =~= seq![0xffu8],
            hasher@ =~= spec_hash_writes(lines.deep_view().take(i as int)),
        decreases lines.len() - i,
    {
        hasher.write(lines[i].as_str().as_bytes());
        hasher.write(sep.as_slice());
        i += 1;
        proof {
            let dv = lines.deep_view();
            assert(dv.take(i as int).drop_last() =~= dv.take(i - 1));
            assert(dv.take(i as int).last() == dv[i - 1]);
        }
    }
    proof {
        assert(lines.deep_view().take(lines@.len() as int) =~= lines.deep_view());
    }
    hasher.finish()
}

} // verus!
