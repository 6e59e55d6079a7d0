//! The streaming reader: it accumulates chunks, runs the entry-assembly state
//! machine on them, and queues the completed entries.
use vstd::prelude::*;
use vstd::slice::{slice_subrange, slice_to_vec};
use bytes::{Bytes, BytesMut};
use crate::error::{Error, FormatError};
use crate::machine::{
    descriptor_applies, drained, finished, lemma_decode_bounds, lemma_run_unfold, lemma_step_fits,
    owed, run, slot_fits, step, with_input, EntryView, ReaderView, SlotView,
};
use crate::record::{
    decode_record, DataDescriptor, Decoded, LocalFileHeader, LocalHeaderView, Record,
};
use crate::trusted::{
    buffer_advance, buffer_as_slice, buffer_contents, buffer_extend, buffer_new, bytes_as_slice,
    bytes_contents, bytes_from_vec, inflate_raw, inflated, utf8_string, utf8_text,
};

verus! {

/// A file entry of the archive: its local header and its compressed body.
#[derive(Debug)]
pub struct ZipEntry {
    header: LocalFileHeader,
    bytes: BytesMut,
}

impl View for ZipEntry {
    type V = EntryView;

    closed spec fn view(&self) -> EntryView {
        EntryView { header: self.header@, body: buffer_contents(self.bytes) }
    }
}

/// The mathematical value of a [`DeflatedEntry`].
pub struct DeflatedView {
    pub header: LocalHeaderView,
    pub name: Seq<char>,
    pub data: Seq<u8>,
}

/// An extracted entry from a zip file, with its decompressed data.
pub struct DeflatedEntry {
    header: LocalFileHeader,
    name: String,
    bytes: Bytes,
}

impl View for DeflatedEntry {
    type V = DeflatedView;

    closed spec fn view(&self) -> DeflatedView {
        DeflatedView { header: self.header@, name: self.name@, data: bytes_contents(self.bytes) }
    }
}

/// The entry slot of the reader: idle, or one entry that is owed `owed` more body bytes.
#[derive(Debug)]
enum EntryState {
    Idle,
    Open { entry: ZipEntry, owed: u32 },
}

spec fn slot_of(s: EntryState) -> SlotView {
    match s {
        EntryState::Idle => SlotView::Idle,
        EntryState::Open { entry, owed } => SlotView::Open { entry: entry@, owed: owed as nat },
    }
}

/// The values of a sequence of entries.
pub open spec fn queue_of(v: Seq<ZipEntry>) -> Seq<EntryView> {
    v.map_values(|e: ZipEntry| e@)
}

spec fn reader_at(
    check_descriptor_flag: bool,
    state: EntryState,
    entries: Seq<ZipEntry>,
    pending: Seq<u8>,
) -> ReaderView {
    ReaderView { slot: slot_of(state), ready: queue_of(entries), pending, check_descriptor_flag }
}

/// Decodes a ZIP archive delivered in chunks of any size.
#[derive(Debug)]
pub struct ZipReader {
    state: EntryState,
    buffer: BytesMut,
    entries: Vec<ZipEntry>,
    check_descriptor_flag: bool,
}

impl View for ZipReader {
    type V = ReaderView;

    closed spec fn view(&self) -> ReaderView {
        reader_at(self.check_descriptor_flag, self.state, self.entries@, buffer_contents(self.buffer))
    }
}

proof fn lemma_queue_push(v: Seq<ZipEntry>, e: ZipEntry)
    ensures
        queue_of(v.push(e)) == queue_of(v).push(e@),
{
    assert(queue_of(v.push(e)) =~= queue_of(v).push(e@));
}

/// Appends `chunk` to the body of the open entry.
fn fill_entry(state: &mut EntryState, chunk: &[u8])
    requires
        slot_fits(slot_of(*old(state))),
        slot_of(*old(state)) is Open,
        chunk@.len() <= owed(slot_of(*old(state))),
    ensures
        slot_of(*final(state)) == (SlotView::Open {
            entry: EntryView {
                header: slot_of(*old(state))->Open_entry.header,
                body: slot_of(*old(state))->Open_entry.body + chunk@,
            },
            owed: (slot_of(*old(state))->Open_owed - chunk@.len()) as nat,
        }),
{
    match state {
        EntryState::Open { entry, owed } => {
            buffer_extend(&mut entry.bytes, chunk);
            *owed = *owed - chunk.len() as u32;
        },
        EntryState::Idle => {},
    }
}

/// Replaces the slot by `next`, queueing the entry that was open, if any.
fn replace_slot(state: &mut EntryState, entries: &mut Vec<ZipEntry>, next: EntryState)
    ensures
        slot_of(*final(state)) == slot_of(next),
        queue_of(final(entries)@) == crate::machine::close_slot(
            queue_of(old(entries)@),
            slot_of(*old(state)),
        ),
{
    let mut prev = next;
    std::mem::swap(state, &mut prev);
    match prev {
        EntryState::Open { entry, .. } => {
            proof {
                lemma_queue_push(entries@, entry);
            }
            entries.push(entry);
        },
        EntryState::Idle => {},
    }
}

/// Takes the sizes and checksum of a data descriptor into the open entry,
/// where the descriptor applies to it.
fn patch_entry(state: &mut EntryState, d: DataDescriptor, check: bool)
    ensures
        slot_of(*final(state)) == if descriptor_applies(check, slot_of(*old(state))) {
            crate::machine::patched(
                slot_of(*old(state)),
                d.crc32,
                d.compressed_size,
                d.uncompressed_size,
            )
        } else {
            slot_of(*old(state))
        },
{
    match state {
        EntryState::Open { entry, .. } => {
            if check && (entry.header.flags / 8) % 2 != 1 {
                return;
            }
            entry.header.crc32 = d.crc32;
            entry.header.compressed_size = d.compressed_size;
            entry.header.uncompressed_size = d.uncompressed_size;
        },
        EntryState::Idle => {},
    }
}

/// Performs one step of the state machine on `data` from `pos` on: returns
/// the position after what the step consumed, or `None` where it has to wait.
fn advance_once(
    state: &mut EntryState,
    entries: &mut Vec<ZipEntry>,
    data: &[u8],
    pos: usize,
    check: bool,
) -> (r: Option<usize>)
    requires
        pos <= data@.len(),
        slot_fits(slot_of(*old(state))),
    ensures
        slot_fits(slot_of(*final(state))),
        match r {
            None => {
                &&& step(reader_at(check, *old(state), old(entries)@, data@.skip(pos as int))) is None
                &&& *final(state) == *old(state)
                &&& final(entries)@ == old(entries)@
            },
            Some(next) => {
                &&& pos < next <= data@.len()
                &&& step(reader_at(check, *old(state), old(entries)@, data@.skip(pos as int))) == Some(
                    reader_at(check, *final(state), final(entries)@, data@.skip(next as int)),
                )
            },
        },
{
    let owed_now: u32 = match &*state {
        EntryState::Open { owed, .. } => *owed,
        EntryState::Idle => 0,
    };
    if owed_now > 0 {
        fill_once(state, entries, data, pos, check)
    } else {
        decode_once(state, entries, data, pos, check)
    }
}

fn fill_once(
    state: &mut EntryState,
    entries: &mut Vec<ZipEntry>,
    data: &[u8],
    pos: usize,
    check: bool,
) -> (r: Option<usize>)
    requires
        pos <= data@.len(),
        slot_fits(slot_of(*old(state))),
        owed(slot_of(*old(state))) > 0,
    ensures
        slot_fits(slot_of(*final(state))),
        final(entries)@ == old(entries)@,
        match r {
            None => {
                &&& step(reader_at(check, *old(state), old(entries)@, data@.skip(pos as int))) is None
                &&& *final(state) == *old(state)
            },
            Some(next) => {
                &&& pos < next <= data@.len()
                &&& step(reader_at(check, *old(state), old(entries)@, data@.skip(pos as int))) == Some(
                    reader_at(check, *final(state), final(entries)@, data@.skip(next as int)),
                )
            },
        },
{
    proof {
        reveal(step);
    }
    let ghost r = reader_at(check, *state, entries@, data@.skip(pos as int));
    let owed_now: u32 = match &*state {
        EntryState::Open { owed, .. } => *owed,
        EntryState::Idle => 0,
    };
    if pos == data.len() {
        return None;
    }
    let avail = data.len() - pos;
    let n: usize = if (owed_now as usize) <= avail {
        owed_now as usize
    } else {
        avail
    };
    let chunk = slice_subrange(data, pos, pos + n);
    assert(chunk@ =~= r.pending.take(n as int));
    fill_entry(state, chunk);
    assert(data@.skip((pos + n) as int) =~= r.pending.skip(n as int));
    Some(pos + n)
}

fn decode_once(
    state: &mut EntryState,
    entries: &mut Vec<ZipEntry>,
    data: &[u8],
    pos: usize,
    check: bool,
) -> (r: Option<usize>)
    requires
        pos <= data@.len(),
        slot_fits(slot_of(*old(state))),
        owed(slot_of(*old(state))) == 0,
    ensures
        slot_fits(slot_of(*final(state))),
        match r {
            None => {
                &&& step(reader_at(check, *old(state), old(entries)@, data@.skip(pos as int))) is None
                &&& *final(state) == *old(state)
                &&& final(entries)@ == old(entries)@
            },
            Some(next) => {
                &&& pos < next <= data@.len()
                &&& step(reader_at(check, *old(state), old(entries)@, data@.skip(pos as int))) == Some(
                    reader_at(check, *final(state), final(entries)@, data@.skip(next as int)),
                )
            },
        },
{
    proof {
        reveal(step);
    }
    let ghost r = reader_at(check, *state, entries@, data@.skip(pos as int));
    assert(r.pending =~= data@.subrange(pos as int, data@.len() as int));
    proof {
        lemma_decode_bounds(r.pending);
    }
    let len = data.len();
    let decoded = decode_record(data, pos);
    assert(decoded@ == crate::record::decode_spec(r.pending));
    match decoded {
        Decoded::NeedMoreBytes => None,
        Decoded::NoSignatureHere => {
            assert(data@.skip(pos + 1) =~= r.pending.skip(1));
            Some(pos + 1)
        },
        Decoded::Found { record, consumed } => {
            let next = pos + consumed;
            assert(data@.skip(next as int) =~= r.pending.skip(consumed as int));
            match record {
                Record::LocalFile(header) => {
                    let owed = header.compressed_size;
                    let entry = ZipEntry::new(header);
                    replace_slot(state, entries, EntryState::Open { entry, owed });
                },
                Record::DataDescriptor(d) => {
                    patch_entry(state, d, check);
                },
                _ => {
                    replace_slot(state, entries, EntryState::Idle);
                },
            }
            Some(next)
        },
    }
}

impl ZipReader {
    /// Whether the open entry, if any, fits the 32-bit size field.
    pub closed spec fn wf(&self) -> bool {
        slot_fits(self@.slot)
    }

    /// A reader with no input yet, on which every data descriptor applies to
    /// the open entry.
    pub fn new() -> (r: ZipReader)
        ensures
            r.wf(),
            r@ == crate::machine::initial(false),
    {
        ZipReader::with_descriptor_flag_check(false)
    }

    /// A reader with no input yet. Where `check` holds, a data descriptor
    /// applies only to an entry whose header sets bit 3 of its flags
    /// ("sizes follow the data"); other descriptors are stepped over.
    pub fn with_descriptor_flag_check(check: bool) -> (r: ZipReader)
        ensures
            r.wf(),
            r@ == crate::machine::initial(check),
    {
        let r = ZipReader {
            state: EntryState::Idle,
            buffer: buffer_new(),
            entries: Vec::new(),
            check_descriptor_flag: check,
        };
        assert(queue_of(r.entries@) =~= Seq::<EntryView>::empty());
        r
    }

    /// Runs the state machine on the buffered bytes until it has to wait for more.
    fn process(&mut self)
        requires
            old(self).wf(),
        ensures
            final(self).wf(),
            final(self)@ == run(old(self)@),
    {
        let ghost start = self@;
        let check = self.check_descriptor_flag;
        let data = buffer_as_slice(&self.buffer);
        let mut pos: usize = 0;
        assert(data@.skip(0) =~= data@);
        loop
            invariant
                pos <= data@.len(),
                data@ == buffer_contents(self.buffer),
                check == self.check_descriptor_flag,
                slot_fits(slot_of(self.state)),
                run(start) == run(reader_at(check, self.state, self.entries@, data@.skip(pos as int))),
            ensures
                pos <= data@.len(),
                step(reader_at(check, self.state, self.entries@, data@.skip(pos as int))) is None,
            decreases data@.len() - pos,
        {
            let ghost r = reader_at(check, self.state, self.entries@, data@.skip(pos as int));
            proof {
                lemma_run_unfold(r);
            }
            match advance_once(&mut self.state, &mut self.entries, data, pos, check) {
                None => {
                    break;
                },
                Some(next) => {
                    pos = next;
                },
            }
        }
        let ghost last = reader_at(check, self.state, self.entries@, data@.skip(pos as int));
        proof {
            lemma_run_unfold(last);
        }
        buffer_advance(&mut self.buffer, pos);
        assert(self@ == last);
    }

    /// Feeds the next chunk of the archive and decodes as far as the bytes on
    /// hand allow.
    pub fn update(&mut self, bytes: Bytes)
        requires
            old(self).wf(),
            old(self)@.pending.len() + bytes_contents(bytes).len() <= usize::MAX,
        ensures
            final(self).wf(),
            final(self)@ == run(with_input(old(self)@, bytes_contents(bytes))),
    {
        buffer_extend(&mut self.buffer, bytes_as_slice(&bytes));
        self.process();
    }

    /// Signals the end of the stream: decodes what it can, then queues the
    /// open entry as it stands, even where its body is shorter than declared.
    pub fn finish(&mut self)
        requires
            old(self).wf(),
        ensures
            final(self).wf(),
            final(self)@ == finished(run(old(self)@)),
    {
        self.process();
        replace_slot(&mut self.state, &mut self.entries, EntryState::Idle);
    }

    /// The completed entries that were not taken yet, oldest first.
    pub fn entries(&self) -> (r: &[ZipEntry])
        ensures
            queue_of(r@) == self@.ready,
    {
        self.entries.as_slice()
    }

    /// Removes and returns the oldest completed entry, if any.
    pub fn take_entry(&mut self) -> (r: Option<ZipEntry>)
        requires
            old(self).wf(),
        ensures
            final(self).wf(),
            match r {
                None => old(self)@.ready.len() == 0 && final(self)@ == old(self)@,
                Some(e) => {
                    &&& old(self)@.ready.len() > 0
                    &&& e@ == old(self)@.ready[0]
                    &&& final(self)@ == (ReaderView {
                        ready: old(self)@.ready.drop_first(),
                        ..old(self)@
                    })
                },
            },
    {
        if self.entries.len() == 0 {
            None
        } else {
            let e = self.entries.remove(0);
            assert(queue_of(self.entries@) =~= queue_of(old(self).entries@).drop_first());
            Some(e)
        }
    }

    /// Removes and returns every completed entry, oldest first.
    pub fn drain_entries(&mut self) -> (r: Vec<ZipEntry>)
        requires
            old(self).wf(),
        ensures
            final(self).wf(),
            queue_of(r@) == old(self)@.ready,
            final(self)@ == drained(old(self)@),
    {
        let mut out: Vec<ZipEntry> = Vec::new();
        std::mem::swap(&mut self.entries, &mut out);
        assert(queue_of(self.entries@) =~= Seq::<EntryView>::empty());
        out
    }

    /// Drops every completed entry.
    pub fn flush(&mut self)
        requires
            old(self).wf(),
        ensures
            final(self).wf(),
            final(self)@ == drained(old(self)@),
    {
        self.entries.clear();
        assert(queue_of(self.entries@) =~= Seq::<EntryView>::empty());
    }

    /// The number of delivered bytes that are not consumed yet.
    pub fn buffered_len(&self) -> (r: usize)
        ensures
            r == self@.pending.len(),
    {
        buffer_as_slice(&self.buffer).len()
    }

    /// Whether an entry is open, gathering its body.
    pub fn has_open_entry(&self) -> (r: bool)
        ensures
            r == self@.slot is Open,
    {
        match &self.state {
            EntryState::Open { .. } => true,
            EntryState::Idle => false,
        }
    }
}

impl Default for ZipReader {
    fn default() -> (r: ZipReader)
        ensures
            r.wf(),
            r@ == crate::machine::initial(false),
    {
        ZipReader::new()
    }
}

impl ZipEntry {
    /// An entry with `header` and no body bytes yet.
    pub fn new(header: LocalFileHeader) -> (r: ZipEntry)
        ensures
            r@ == (EntryView { header: header@, body: Seq::empty() }),
    {
        ZipEntry { header, bytes: buffer_new() }
    }

    /// The file name, decoded as UTF-8.
    pub fn name(&self) -> (r: Result<String, Error>)
        ensures
            match r {
                Ok(s) => utf8_text(self@.header.filename) == Some(s@),
                Err(e) => {
                    &&& e == Error::Format(FormatError::InvalidLocalHeader)
                    &&& utf8_text(self@.header.filename) is None
                },
            },
    {
        match utf8_string(slice_to_vec(self.header.filename.as_slice())) {
            Some(s) => Ok(s),
            None => Err(Error::Format(FormatError::InvalidLocalHeader)),
        }
    }

    /// The compressed body gathered for this entry.
    pub fn compressed_data(&self) -> (r: &BytesMut)
        ensures
            buffer_contents(*r) == self@.body,
    {
        &self.bytes
    }

    /// The local file header of this entry, with any data descriptor applied.
    pub fn header(&self) -> (r: &LocalFileHeader)
        ensures
            r@ == self@.header,
    {
        &self.header
    }

    /// Decompresses the body. Fails where the file name is not UTF-8, or where
    /// the body is not a valid deflate stream.
    pub fn inflate(self) -> (r: Result<DeflatedEntry, Error>)
        ensures
            utf8_text(self@.header.filename) is None ==> r == Err::<DeflatedEntry, Error>(
                Error::Format(FormatError::InvalidLocalHeader),
            ),
            utf8_text(self@.header.filename) is Some && inflated(self@.body) is None ==> r == Err::<
                DeflatedEntry,
                Error,
            >(Error::Decompress),
            utf8_text(self@.header.filename) is Some && inflated(self@.body) is Some ==> (r matches Ok(
                d,
            ) && d@ == (DeflatedView {
                header: self@.header,
                name: utf8_text(self@.header.filename)->0,
                data: inflated(self@.body)->0,
            })),
    {
        let name = match self.name() {
            Ok(s) => s,
            Err(e) => return Err(e),
        };
        match inflate_raw(buffer_as_slice(&self.bytes)) {
            Some(data) => Ok(DeflatedEntry { header: self.header, name, bytes: bytes_from_vec(data) }),
            None => Err(Error::Decompress),
        }
    }
}

impl DeflatedEntry {
    /// Returns the header and the decompressed data.
    pub fn into_parts(self) -> (r: (LocalFileHeader, Bytes))
        ensures
            r.0@ == self@.header,
            bytes_contents(r.1) == self@.data,
    {
        (self.header, self.bytes)
    }

    /// The decompressed data.
    pub fn data(&self) -> (r: &Bytes)
        ensures
            bytes_contents(*r) == self@.data,
    {
        &self.bytes
    }

    /// The file name of the entry.
    pub fn name(&self) -> (r: &str)
        ensures
            r@ == self@.name,
    {
        self.name.as_str()
    }

    /// The compressed size of the data.
    pub fn compressed_size(&self) -> (r: u32)
        ensures
            r == self@.header.compressed_size,
    {
        self.header.compressed_size
    }

    /// The uncompressed size of the data.
    pub fn uncompressed_size(&self) -> (r: u32)
        ensures
            r == self@.header.uncompressed_size,
    {
        self.header.uncompressed_size
    }
}

} // verus!

