//! The entry-assembly state machine as mathematics: one step on the bytes on
//! hand, a run of steps until none applies, and the laws that these obey.
use vstd::prelude::*;
use crate::record::{decode_spec, DecodedView, LocalHeaderView, RecordView};

verus! {

/// An entry: its local header and the compressed body bytes gathered so far.
pub struct EntryView {
    pub header: LocalHeaderView,
    pub body: Seq<u8>,
}

/// The entry slot: no entry open, or one entry that still is owed `owed` body bytes.
pub enum SlotView {
    Idle,
    Open { entry: EntryView, owed: nat },
}

/// A reader: its entry slot, the queue of completed entries, the bytes that
/// were delivered and not consumed yet, and whether a data descriptor applies
/// only to an entry whose header announces one.
pub struct ReaderView {
    pub slot: SlotView,
    pub ready: Seq<EntryView>,
    pub pending: Seq<u8>,
    pub check_descriptor_flag: bool,
}

/// A fresh reader.
pub open spec fn initial(check_descriptor_flag: bool) -> ReaderView {
    ReaderView {
        slot: SlotView::Idle,
        ready: Seq::empty(),
        pending: Seq::empty(),
        check_descriptor_flag,
    }
}

/// Whether bit 3 of the header's flags is set: sizes and checksum follow the
/// body in a data descriptor.
pub open spec fn announces_descriptor(h: LocalHeaderView) -> bool {
    (h.flags as int / 8) % 2 == 1
}

/// Whether a data descriptor met now applies to the open entry.
pub open spec fn descriptor_applies(check_descriptor_flag: bool, slot: SlotView) -> bool {
    match slot {
        SlotView::Idle => false,
        SlotView::Open { entry, .. } => !check_descriptor_flag || announces_descriptor(
            entry.header,
        ),
    }
}

/// `r` with `chunk` appended to the bytes on hand.
pub open spec fn with_input(r: ReaderView, chunk: Seq<u8>) -> ReaderView {
    ReaderView { pending: r.pending + chunk, ..r }
}

/// The queue after the entry in `slot`, if any, is closed and queued.
pub open spec fn close_slot(ready: Seq<EntryView>, slot: SlotView) -> Seq<EntryView> {
    match slot {
        SlotView::Idle => ready,
        SlotView::Open { entry, .. } => ready.push(entry),
    }
}

/// Every entry of `r` in the order in which it leaves: the queue, then the open entry.
pub open spec fn lineup(r: ReaderView) -> Seq<EntryView> {
    close_slot(r.ready, r.slot)
}

/// The number of body bytes that the open entry is still owed (none when idle).
pub open spec fn owed(slot: SlotView) -> nat {
    match slot {
        SlotView::Idle => 0,
        SlotView::Open { owed, .. } => owed,
    }
}

/// The slot after a data descriptor that applies: the open entry takes its
/// sizes and checksum.
pub open spec fn patched(slot: SlotView, crc32: u32, compressed: u32, uncompressed: u32) -> SlotView {
    match slot {
        SlotView::Idle => SlotView::Idle,
        SlotView::Open { entry, owed } => SlotView::Open {
            entry: EntryView {
                header: LocalHeaderView {
                    crc32,
                    compressed_size: compressed,
                    uncompressed_size: uncompressed,
                    ..entry.header
                },
                body: entry.body,
            },
            owed,
        },
    }
}

/// One step of the state machine on the bytes on hand, or `None` where it has
/// to wait for more input.
///
/// An open entry that is still owed body bytes takes as many of them as are
/// there. Otherwise a record is decoded at the front: a local file header
/// queues the open entry and opens a new one, a data descriptor patches the
/// open entry (where the reader checks the flag, only one whose header
/// announces a descriptor), and the central directory records queue it and leave the slot
/// idle; a byte that starts no record is skipped.
#[verifier::opaque]
pub open spec fn step(r: ReaderView) -> Option<ReaderView> {
    let p = r.pending;
    if owed(r.slot) > 0 {
        if p.len() == 0 {
            None
        } else {
            let n = if owed(r.slot) <= p.len() { owed(r.slot) } else { p.len() };
            let entry = r.slot->Open_entry;
            Some(ReaderView {
                slot: SlotView::Open {
                    entry: EntryView { header: entry.header, body: entry.body + p.take(n as int) },
                    owed: (owed(r.slot) - n) as nat,
                },
                ready: r.ready,
                pending: p.skip(n as int),
                ..r
            })
        }
    } else {
        match decode_spec(p) {
            DecodedView::NeedMoreBytes => None,
            DecodedView::NoSignatureHere => Some(ReaderView { pending: p.skip(1), ..r }),
            DecodedView::Found { record, consumed } => {
                let rest = p.skip(consumed as int);
                match record {
                    RecordView::LocalFile(h) => Some(
                        ReaderView {
                            slot: SlotView::Open {
                                entry: EntryView { header: h, body: Seq::empty() },
                                owed: h.compressed_size as nat,
                            },
                            ready: close_slot(r.ready, r.slot),
                            pending: rest,
                            ..r
                        },
                    ),
                    RecordView::DataDescriptor(d) => Some(
                        ReaderView {
                            slot: if descriptor_applies(r.check_descriptor_flag, r.slot) {
                                patched(r.slot, d.crc32, d.compressed_size, d.uncompressed_size)
                            } else {
                                r.slot
                            },
                            ready: r.ready,
                            pending: rest,
                            ..r
                        },
                    ),
                    _ => Some(
                        ReaderView {
                            slot: SlotView::Idle,
                            ready: close_slot(r.ready, r.slot),
                            pending: rest,
                            ..r
                        },
                    ),
                }
            },
        }
    }
}

/// Steps until none applies.
pub open spec fn run(r: ReaderView) -> ReaderView
    decreases r.pending.len(),
{
    match step(r) {
        Some(r2) => if r2.pending.len() < r.pending.len() {
            run(r2)
        } else {
            r
        },
        None => r,
    }
}

/// The reader after the end of the stream: the open entry, if any, is queued
/// as it stands.
pub open spec fn finished(r: ReaderView) -> ReaderView {
    ReaderView { slot: SlotView::Idle, ready: lineup(r), ..r }
}

/// Feeds each chunk in turn, running the machine after each.
pub open spec fn feed_all(r: ReaderView, chunks: Seq<Seq<u8>>) -> ReaderView
    decreases chunks.len(),
{
    if chunks.len() == 0 {
        r
    } else {
        feed_all(run(with_input(r, chunks[0])), chunks.drop_first())
    }
}

pub(crate) proof fn lemma_decode_bounds(p: Seq<u8>)
    ensures
        decode_spec(p) matches DecodedView::Found { consumed, .. } ==> 4 <= consumed <= p.len(),
        decode_spec(p) is NoSignatureHere ==> p.len() >= 4,
{
}

proof fn lemma_decode_extend(p: Seq<u8>, q: Seq<u8>)
    ensures
        decode_spec(p) is Found ==> decode_spec(p + q) == decode_spec(p),
        decode_spec(p) is NoSignatureHere ==> decode_spec(p + q) is NoSignatureHere,
{
    let pq = p + q;
    if p.len() >= 4 {
        assert(pq[0] == p[0] && pq[1] == p[1] && pq[2] == p[2] && pq[3] == p[3]);
    }
    if decode_spec(p) is Found {
        let r = decode_spec(p);
        let k = r->Found_consumed;
        assert forall|i: int| 0 <= i < k implies pq[i] == p[i] by {
            lemma_decode_bounds(p);
        }
        if r->Found_record is LocalFile {
            let n = crate::record::le16(p, 26) as int;
            let m = crate::record::le16(p, 28) as int;
            assert(pq.subrange(30, 30 + n) =~= p.subrange(30, 30 + n));
            assert(pq.subrange(30 + n, 30 + n + m) =~= p.subrange(30 + n, 30 + n + m));
        }
    }
}

/// A step always consumes input.
proof fn lemma_step_shrinks(r: ReaderView)
    ensures
        step(r) matches Some(r2) ==> r2.pending.len() < r.pending.len(),
{
    reveal(step);
    lemma_decode_bounds(r.pending);
}

pub(crate) proof fn lemma_run_unfold(r: ReaderView)
    ensures
        step(r) is None ==> run(r) == r,
        step(r) matches Some(r2) ==> run(r) == run(r2),
{
    lemma_step_shrinks(r);
}

proof fn lemma_fill_extend(r: ReaderView, q: Seq<u8>)
    requires
        step(r) is Some,
        owed(r.slot) > 0,
    ensures
        run(with_input(r, q)) == run(with_input(step(r)->0, q)),
{
    reveal(step);
    let r2 = step(r)->0;
    let rq = with_input(r, q);
    let p = r.pending;
    let pq = p + q;
    lemma_run_unfold(rq);
    let o = owed(r.slot);
    let entry = r.slot->Open_entry;
    if o <= p.len() {
        assert(pq.take(o as int) =~= p.take(o as int));
        assert(pq.skip(o as int) =~= p.skip(o as int) + q);
        assert(step(rq) == Some(with_input(r2, q)));
    } else if q.len() == 0 {
        assert(rq.pending =~= r.pending);
        assert(rq == r);
        assert(with_input(r2, q).pending =~= r2.pending);
        assert(with_input(r2, q) == r2);
        lemma_run_unfold(r);
    } else {
        let r2q = with_input(r2, q);
        lemma_run_unfold(r2q);
        let o2 = (o - p.len()) as nat;
        assert(r2.pending =~= Seq::<u8>::empty());
        assert(r2q.pending =~= q);
        let n = if o <= pq.len() {
            o
        } else {
            pq.len()
        };
        let n2 = if o2 <= q.len() {
            o2
        } else {
            q.len()
        };
        assert(n == p.len() + n2);
        assert(entry.body + pq.take(n as int) =~= (entry.body + p.take(p.len() as int)) + q.take(
            n2 as int,
        ));
        assert(pq.skip(n as int) =~= q.skip(n2 as int));
        assert(step(rq) == step(r2q));
    }
}

proof fn lemma_decode_step_extend(r: ReaderView, q: Seq<u8>)
    requires
        step(r) is Some,
        owed(r.slot) == 0,
    ensures
        step(with_input(r, q)) == Some(with_input(step(r)->0, q)),
{
    reveal(step);
    let r2 = step(r)->0;
    let rq = with_input(r, q);
    let p = r.pending;
    let pq = p + q;
    lemma_decode_extend(p, q);
    lemma_decode_bounds(p);
    match decode_spec(p) {
        DecodedView::NoSignatureHere => {
            assert(pq.skip(1) =~= p.skip(1) + q);
        },
        DecodedView::Found { record, consumed } => {
            assert(pq.skip(consumed as int) =~= p.skip(consumed as int) + q);
        },
        DecodedView::NeedMoreBytes => {},
    }
}

/// Where a step applies to the bytes on hand, more input changes nothing of
/// what the machine goes on to do.
proof fn lemma_step_extend(r: ReaderView, q: Seq<u8>)
    requires
        step(r) is Some,
    ensures
        run(with_input(r, q)) == run(with_input(step(r)->0, q)),
{
    if owed(r.slot) > 0 {
        lemma_fill_extend(r, q);
    } else {
        lemma_decode_step_extend(r, q);
        lemma_run_unfold(with_input(r, q));
    }
}

/// Running on more input is running first on what is there, then on the rest.
proof fn lemma_run_extend(r: ReaderView, q: Seq<u8>)
    ensures
        run(with_input(r, q)) == run(with_input(run(r), q)),
    decreases r.pending.len(),
{
    lemma_run_unfold(r);
    lemma_step_shrinks(r);
    match step(r) {
        None => {},
        Some(r2) => {
            lemma_step_extend(r, q);
            lemma_run_extend(r2, q);
        },
    }
}

/// Chunking invariance: feeding `a` and then `b`, running the machine after
/// each, leaves the reader exactly as feeding `a + b` at once, and so does the
/// end of the stream after either.
pub proof fn lemma_chunking_invariance(r: ReaderView, a: Seq<u8>, b: Seq<u8>)
    ensures
        run(with_input(run(with_input(r, a)), b)) == run(with_input(r, a + b)),
        finished(run(with_input(run(with_input(r, a)), b))) == finished(
            run(with_input(r, a + b)),
        ),
{
    lemma_run_extend(with_input(r, a), b);
    assert(with_input(with_input(r, a), b).pending =~= with_input(r, a + b).pending);
    assert(with_input(with_input(r, a), b) == with_input(r, a + b));
}

/// Chunking invariance for any split of a stream: feeding the chunks one by one
/// to a settled reader gives what feeding their concatenation at once gives,
/// before and after the end of the stream.
pub proof fn lemma_any_split(r: ReaderView, chunks: Seq<Seq<u8>>)
    ensures
        feed_all(run(r), chunks) == run(with_input(r, chunks.flatten())),
        finished(feed_all(run(r), chunks)) == finished(run(with_input(r, chunks.flatten()))),
    decreases chunks.len(),
{
    if chunks.len() == 0 {
        assert(with_input(r, chunks.flatten()).pending =~= r.pending);
        assert(with_input(r, chunks.flatten()) == r);
    } else {
        let c0 = chunks[0];
        let rest = chunks.drop_first();
        let r1 = with_input(run(r), c0);
        lemma_any_split(r1, rest);
        lemma_run_extend(r, c0 + rest.flatten());
        assert(with_input(r1, rest.flatten()).pending =~= with_input(run(r), c0 + rest.flatten()).pending);
        assert(with_input(r1, rest.flatten()) == with_input(run(r), c0 + rest.flatten()));
    }
}

/// Chunking invariance from a fresh reader: any split of a stream into chunks,
/// each fed in turn, then the end of the stream, yields the entries that
/// feeding the whole stream in one chunk yields.
pub proof fn lemma_fresh_reader_split(check_descriptor_flag: bool, chunks: Seq<Seq<u8>>)
    ensures
        finished(feed_all(initial(check_descriptor_flag), chunks)) == finished(
            feed_all(initial(check_descriptor_flag), seq![chunks.flatten()]),
        ),
{
    let r = initial(check_descriptor_flag);
    reveal(step);
    assert(decode_spec(r.pending) is NeedMoreBytes);
    lemma_run_unfold(r);
    lemma_any_split(r, chunks);
    let one = seq![chunks.flatten()];
    assert(one.drop_first() =~= Seq::<Seq<u8>>::empty());
    assert(feed_all(r, one) == feed_all(run(with_input(r, one[0])), one.drop_first()));
}

/// A run leaves a reader on which no step applies.
pub proof fn lemma_run_settled(r: ReaderView)
    ensures
        step(run(r)) is None,
        run(run(r)) == run(r),
    decreases r.pending.len(),
{
    lemma_run_unfold(r);
    lemma_step_shrinks(r);
    if let Some(r2) = step(r) {
        lemma_run_settled(r2);
    }
    lemma_run_unfold(run(r));
}

/// The queue after the caller takes every entry of it.
pub open spec fn drained(r: ReaderView) -> ReaderView {
    ReaderView { ready: Seq::empty(), ..r }
}

/// The file names of a sequence of entries.
pub open spec fn names(s: Seq<EntryView>) -> Seq<Seq<u8>> {
    s.map_values(|e: EntryView| e.header.filename)
}

/// The file name of the local header that a step on `r` recognizes, if it recognizes one.
pub open spec fn opened_by_step(r: ReaderView) -> Seq<Seq<u8>> {
    if owed(r.slot) == 0 {
        match decode_spec(r.pending) {
            DecodedView::Found { record: RecordView::LocalFile(h), .. } => seq![h.filename],
            _ => Seq::empty(),
        }
    } else {
        Seq::empty()
    }
}

/// The file names of the local headers that a run on `r` recognizes, in order.
pub open spec fn opened_by_run(r: ReaderView) -> Seq<Seq<u8>>
    decreases r.pending.len(),
{
    match step(r) {
        Some(r2) => if r2.pending.len() < r.pending.len() {
            opened_by_step(r) + opened_by_run(r2)
        } else {
            Seq::empty()
        },
        None => Seq::empty(),
    }
}

proof fn lemma_names_push(s: Seq<EntryView>, e: EntryView)
    ensures
        names(s.push(e)) == names(s).push(e.header.filename),
{
    assert(names(s.push(e)) =~= names(s).push(e.header.filename));
}

proof fn lemma_step_order(r: ReaderView)
    requires
        step(r) is Some,
    ensures
        r.ready.is_prefix_of(step(r)->0.ready),
        names(lineup(step(r)->0)) == names(lineup(r)) + opened_by_step(r),
{
    reveal(step);
    let r2 = step(r)->0;
    lemma_decode_bounds(r.pending);
    if let SlotView::Open { entry, .. } = r.slot {
        lemma_names_push(r.ready, entry);
    }
    if owed(r.slot) > 0 {
        let e2 = r2.slot->Open_entry;
        lemma_names_push(r.ready, e2);
        assert(names(lineup(r2)) =~= names(lineup(r)) + opened_by_step(r));
    } else {
        match decode_spec(r.pending) {
            DecodedView::Found { record, .. } => {
                match record {
                    RecordView::LocalFile(h) => {
                        lemma_names_push(lineup(r), r2.slot->Open_entry);
                        assert(names(lineup(r2)) =~= names(lineup(r)) + opened_by_step(r));
                    },
                    RecordView::DataDescriptor(d) => {
                        if let SlotView::Open { entry, .. } = r2.slot {
                            lemma_names_push(r.ready, entry);
                        }
                        assert(names(lineup(r2)) =~= names(lineup(r)) + opened_by_step(r));
                    },
                    _ => {
                        assert(names(lineup(r2)) =~= names(lineup(r)) + opened_by_step(r));
                    },
                }
            },
            _ => {
                assert(names(lineup(r2)) =~= names(lineup(r)) + opened_by_step(r));
            },
        }
    }
}

/// Order preservation: a run never drops or reorders the queue, and the
/// entries leave in the order in which their local file headers were
/// recognized, after those that were queued or open before.
pub proof fn lemma_order_preserved(r: ReaderView)
    ensures
        r.ready.is_prefix_of(run(r).ready),
        names(lineup(run(r))) == names(lineup(r)) + opened_by_run(r),
    decreases r.pending.len(),
{
    lemma_run_unfold(r);
    lemma_step_shrinks(r);
    match step(r) {
        None => {
            assert(names(lineup(r)) + opened_by_run(r) =~= names(lineup(r)));
        },
        Some(r2) => {
            lemma_step_order(r);
            lemma_order_preserved(r2);
            assert(names(lineup(r)) + opened_by_step(r) + opened_by_run(r2) =~= names(lineup(r))
                + (opened_by_step(r) + opened_by_run(r2)));
        },
    }
}

/// Idempotent drain: a drain empties the queue, so a second one hands out
/// nothing and changes nothing.
pub proof fn lemma_drain_twice(r: ReaderView)
    ensures
        drained(r).ready == Seq::<EntryView>::empty(),
        drained(drained(r)) == drained(r),
        drained(r).slot == r.slot && drained(r).pending == r.pending,
{
}

/// Truncation tolerance: after a run, an entry that is still owed body bytes
/// has taken every byte on hand, and the end of the stream queues it with
/// them, dropping no entry.
pub proof fn lemma_truncation_kept(r: ReaderView)
    ensures
        owed(run(r).slot) > 0 ==> run(r).pending.len() == 0,
        lineup(finished(run(r))) == lineup(run(r)),
        finished(run(r)).slot is Idle,
{
    reveal(step);
    lemma_run_settled(r);
}

/// An open entry's body, with what it is still owed, fits the 32-bit size field.
pub open spec fn slot_fits(s: SlotView) -> bool {
    s matches SlotView::Open { entry, owed } ==> entry.body.len() + owed <= u32::MAX
}

/// A step keeps the open entry within the 32-bit size field.
pub proof fn lemma_step_fits(r: ReaderView)
    requires
        slot_fits(r.slot),
        step(r) is Some,
    ensures
        slot_fits(step(r)->0.slot),
{
    reveal(step);
}

} // verus!
