//! The consumer side: decoding chunks of records, draining reader handles,
//! retiring the handles of exited producers, and taking in new ones.
use crate::codec::{bincode_read_u32, parse_stream, views, DecodeCorruption, DecoderView, LoggedValue, RecordView};
use crate::registry::{frozen, CallSiteRegistry, FreezeError, RawFunc};
use std::sync::mpsc::Receiver;
use vstd::prelude::*;
use vstd::slice::slice_subrange;

verus! {

#[verifier::external_type_specification]
#[verifier::external_body]
#[verifier::reject_recursive_types(T)]
pub struct ExReader<T>(cueue::Reader<T>);

#[verifier::external_type_specification]
#[verifier::external_body]
#[verifier::reject_recursive_types(T)]
pub struct ExReceiver<T>(Receiver<T>);

/// The chunk that the reader's last read took, while it is not released.
pub uninterp spec fn held(r: cueue::Reader<u8>) -> Option<Seq<u8>>;

/// Every byte the reader has released so far, oldest first.
pub uninterp spec fn released(r: cueue::Reader<u8>) -> Seq<u8>;

/// Every byte the writer had committed when the reader last read, oldest
/// first.
pub uninterp spec fn committed(r: cueue::Reader<u8>) -> Seq<u8>;

/// The reader has seen that its writer is dropped.
pub uninterp spec fn gone(r: cueue::Reader<u8>) -> bool;

/// The reader's last read came after it had seen its writer dropped, so what
/// that read saw committed is all that the writer ever commits.
pub uninterp spec fn settled(r: cueue::Reader<u8>) -> bool;

/// Relies on `cueue::Reader::read_chunk`: it loads the write position and
/// takes every byte committed up to it and not yet released, as one
/// contiguous slice, and holds it until `commit`. Committed bytes are never
/// taken back, and after the writer is dropped nothing more is committed.
#[verifier::external_body]
fn read_chunk<'a>(r: &'a mut cueue::Reader<u8>) -> (c: &'a [u8])
    ensures
        held(*final(r)) == Some(c@),
        released(*final(r)) == released(*old(r)),
        committed(*final(r)) == released(*old(r)) + c@,
        committed(*old(r)).is_prefix_of(committed(*final(r))),
        gone(*final(r)) == gone(*old(r)),
        settled(*final(r)) == gone(*old(r)),
{
    r.read_chunk()
}

/// Relies on `cueue::Reader::commit`: it releases the chunk that the last
/// `read_chunk` took, making its room writable again. It does not forget the
/// chunk's size, so a second call would release as many bytes again: it is
/// called once per read.
#[verifier::external_body]
fn release(r: &mut cueue::Reader<u8>)
    requires
        held(*old(r)) is Some,
    ensures
        released(*final(r)) == released(*old(r)) + held(*old(r))->Some_0,
        held(*final(r)) is None,
        committed(*final(r)) == committed(*old(r)),
        gone(*final(r)) == gone(*old(r)),
        settled(*final(r)) == settled(*old(r)),
{
    r.commit()
}

/// Relies on `cueue::Reader::is_abandoned`: whether the writer has been
/// dropped (the shared buffer has no other owner left). A dropped writer
/// stays dropped.
#[verifier::external_body]
fn is_abandoned(r: &mut cueue::Reader<u8>) -> (b: bool)
    ensures
        b == gone(*final(r)),
        gone(*old(r)) ==> gone(*final(r)),
        held(*final(r)) == held(*old(r)),
        released(*final(r)) == released(*old(r)),
        committed(*final(r)) == committed(*old(r)),
        settled(*final(r)) == settled(*old(r)),
{
    r.is_abandoned()
}

/// Relies on `std::sync::mpsc::Receiver::try_iter`: every handle that
/// producers have sent and that is waiting, in the order sent; it never blocks.
#[verifier::external_body]
fn take_waiting(rx: &Receiver<cueue::Reader<u8>>) -> (r: Vec<cueue::Reader<u8>>) {
    rx.try_iter().collect()
}

/// A decoded record: the id of the call site that wrote it and its arguments.
#[derive(Debug, PartialEq)]
pub struct LogRecord {
    pub site: usize,
    pub args: Vec<LoggedValue>,
}

impl View for LogRecord {
    type V = RecordView;

    open spec fn view(&self) -> RecordView {
        RecordView { site: self.site as nat, args: views(self.args@) }
    }
}

/// The decoders of a table, as the codec sees them.
pub open spec fn decoder_views(fns: Seq<RawFunc>) -> Seq<DecoderView> {
    fns.map_values(|f: RawFunc| f.view())
}

/// Between `before` and `after` the reader released `bytes` more bytes, and
/// they decode, with the decoders `table`, to `records`.
pub open spec fn drained(
    before: cueue::Reader<u8>,
    after: cueue::Reader<u8>,
    bytes: nat,
    records: Seq<RecordView>,
    table: Seq<DecoderView>,
) -> bool {
    &&& released(after).len() == released(before).len() + bytes
    &&& released(after).take(released(before).len() as int) == released(before)
    &&& parse_stream(released(after).skip(released(before).len() as int), table)
        == Ok::<Seq<RecordView>, DecodeCorruption>(records)
}

/// One drain of a reader handle: the handle before and after it, the bytes it
/// released, the records they decoded to, and whether the handle was found
/// drained for good.
pub ghost struct HandleDrain {
    pub before: cueue::Reader<u8>,
    pub after: cueue::Reader<u8>,
    pub bytes: nat,
    pub records: Seq<RecordView>,
    pub finished: bool,
}

/// What a drain owes: the released bytes decode to its records; everything
/// committed before it is released; and it reports the handle finished
/// exactly when the writer was seen gone before a read that found nothing,
/// so a finished handle has released all its writer ever committed.
pub open spec fn drain_ok(o: HandleDrain, table: Seq<DecoderView>) -> bool {
    &&& drained(o.before, o.after, o.bytes, o.records, table)
    &&& committed(o.before).is_prefix_of(released(o.after))
    &&& released(o.after) == committed(o.after)
    &&& o.finished ==> {
        &&& o.bytes == 0
        &&& o.records.len() == 0
        &&& gone(o.after)
        &&& settled(o.after)
    }
    &&& o.finished <== gone(o.before) && o.bytes == 0
}

/// The handles that a sweep keeps, in order: those not found finished.
pub open spec fn kept(ds: Seq<HandleDrain>) -> Seq<cueue::Reader<u8>>
    decreases ds.len(),
{
    if ds.len() == 0 {
        Seq::empty()
    } else {
        kept(ds.drop_last()) + if ds.last().finished {
            Seq::<cueue::Reader<u8>>::empty()
        } else {
            seq![ds.last().after]
        }
    }
}

/// The records of a run of drains, one drain's after another's.
pub open spec fn all_records(ds: Seq<HandleDrain>) -> Seq<RecordView>
    decreases ds.len(),
{
    if ds.len() == 0 {
        Seq::empty()
    } else {
        all_records(ds.drop_last()) + ds.last().records
    }
}

/// The reader still holds its last chunk, unreleased, and the chunk fails to
/// decode with `e`.
pub open spec fn stuck(r: cueue::Reader<u8>, e: DecodeCorruption, table: Seq<DecoderView>) -> bool {
    held(r) matches Some(c) && parse_stream(c, table) == Err::<Seq<RecordView>, DecodeCorruption>(e)
}

/// `r` with the records `p` put in front, when it is a success.
pub open spec fn prepend(p: Seq<RecordView>, r: Result<Seq<RecordView>, DecodeCorruption>) -> Result<Seq<RecordView>, DecodeCorruption> {
    match r {
        Ok(rs) => Ok(p + rs),
        Err(e) => Err(e),
    }
}

/// Decodes the records that fill `chunk` exactly, one after another, with the
/// decoder of each record's call site.
pub fn decode_chunk(chunk: &[u8], decoders: &Vec<RawFunc>) -> (r: Result<Vec<LogRecord>, DecodeCorruption>)
    ensures
        r is Ok <==> parse_stream(chunk@, decoder_views(decoders@)) is Ok,
        r matches Ok(recs) ==> parse_stream(chunk@, decoder_views(decoders@)) == Ok::<Seq<RecordView>, DecodeCorruption>(views(recs@)),
        r matches Err(e) ==> parse_stream(chunk@, decoder_views(decoders@)) == Err::<Seq<RecordView>, DecodeCorruption>(e),
{
    let ghost c = chunk@;
    let ghost ar = decoder_views(decoders@);
    let mut out: Vec<LogRecord> = Vec::new();
    let mut off: usize = 0;
    assert(c.subrange(0, c.len() as int) =~= c);
    while off < chunk.len()
        invariant
            c == chunk@,
            ar == decoder_views(decoders@),
            off <= c.len(),
            parse_stream(c, ar) == prepend(views(out@), parse_stream(c.subrange(off as int, c.len() as int), ar)),
        decreases c.len() - off,
    {
        let rest = slice_subrange(chunk, off, chunk.len());
        let ghost t = rest@;
        assert(t =~= c.subrange(off as int, c.len() as int));
        let site = match bincode_read_u32(rest) {
            Ok((v, _)) => v,
            Err(_) => return Err(DecodeCorruption::MalformedPayload),
        };
        if site as u64 >= decoders.len() as u64 {
            return Err(DecodeCorruption::UnknownCallSite);
        }
        let site = site as usize;
        proof {
            assert(decoder_views(decoders@)[site as int] == decoders@[site as int].view());
        }
        match decoders[site].invoke(rest) {
            None => return Err(DecodeCorruption::MalformedPayload),
            Some((args, n)) => {
                if n == 0 || n > rest.len() {
                    return Err(DecodeCorruption::MalformedPayload);
                }
                let rec = LogRecord { site, args };
                proof {
                    let tail = t.subrange(n as int, t.len() as int);
                    assert(tail =~= c.subrange(off + n, c.len() as int));
                    assert(parse_stream(t, ar) == prepend(seq![rec@], parse_stream(tail, ar)));
                    assert(views(out@.push(rec)) =~= views(out@).push(rec@));
                    assert(views(out@) + (seq![rec@] + Seq::<RecordView>::empty()) =~= views(out@).push(rec@));
                    match parse_stream(tail, ar) {
                        Ok(rs) => {
                            assert(views(out@) + (seq![rec@] + rs) =~= views(out@).push(rec@) + rs);
                        },
                        Err(_) => {},
                    }
                }
                out.push(rec);
                off = off + n;
            },
        }
    }
    assert(views(out@) + Seq::<RecordView>::empty() =~= views(out@));
    Ok(out)
}

/// What one drain of a reader handle found.
#[derive(Debug)]
pub struct Drained {
    /// The records decoded from the chunk that was read.
    pub records: Vec<LogRecord>,
    /// The size of that chunk.
    pub bytes: usize,
    /// The writer was gone before the read and the read found nothing: the
    /// handle is drained for good and can be dropped.
    pub finished: bool,
}

/// Reads what is waiting in `reader`, decodes all of it and releases it.
/// Whether the writer is gone is asked before the read, so a handle reported
/// finished had no byte left: nothing can be committed after the writer is
/// dropped, and the read takes everything committed. On a decoding failure
/// nothing is released and the reader keeps the chunk.
pub fn drain_reader(reader: &mut cueue::Reader<u8>, decoders: &Vec<RawFunc>) -> (r: Result<Drained, DecodeCorruption>)
    ensures
        r matches Ok(d) ==> drain_ok(
            HandleDrain {
                before: *old(reader),
                after: *final(reader),
                bytes: d.bytes as nat,
                records: views(d.records@),
                finished: d.finished,
            },
            decoder_views(decoders@),
        ),
        r matches Err(e) ==> {
            &&& released(*final(reader)) == released(*old(reader))
            &&& stuck(*final(reader), e, decoder_views(decoders@))
        },
{
    let ghost start = *reader;
    let writer_gone = is_abandoned(reader);
    let ghost before = released(*reader);
    let chunk = read_chunk(reader);
    let bytes = chunk.len();
    let recs = decode_chunk(chunk, decoders);
    match recs {
        Ok(records) => {
            let ghost c = held(*reader)->Some_0;
            release(reader);
            proof {
                let after = released(*reader);
                assert(after.take(before.len() as int) =~= before);
                assert(after.skip(before.len() as int) =~= c);
                assert(views(records@).len() == records@.len());
                if bytes == 0 {
                    assert(c =~= Seq::<u8>::empty());
                }
            }
            Ok(Drained { records, bytes, finished: writer_gone && bytes == 0 })
        },
        Err(e) => Err(e),
    }
}

/// How often, in sweeps, the consumer takes in new reader handles.
pub const POLL_EVERY: u64 = 64;

/// The consumer's state: the live reader handles, the directory through which
/// producers send new ones, and the decoders of all call sites, by id.
pub struct Consumer {
    readers: Vec<cueue::Reader<u8>>,
    directory: Receiver<cueue::Reader<u8>>,
    decoders: Vec<RawFunc>,
    sweeps: u64,
}

/// What one sweep did.
pub struct SweepReport {
    /// The records decoded, handle by handle; each handle's in the order its
    /// producer wrote them.
    pub records: Vec<LogRecord>,
    /// The handles dropped because their producer was gone and they were drained.
    pub retired: usize,
    /// The handles taken in from the directory.
    pub joined: usize,
    /// The drain of each handle that was live when the sweep began, in order.
    pub drains: Ghost<Seq<HandleDrain>>,
}

impl Consumer {
    /// The live reader handles.
    pub closed spec fn handles(&self) -> Seq<cueue::Reader<u8>> {
        self.readers@
    }

    /// The number of live reader handles.
    pub open spec fn live(&self) -> nat {
        self.handles().len()
    }

    /// The number of sweeps done so far, modulo 2^64.
    pub closed spec fn sweep_count(&self) -> u64 {
        self.sweeps
    }

    /// The decoders, by call-site id.
    pub closed spec fn decoder_table(&self) -> Seq<RawFunc> {
        self.decoders@
    }

    /// Freezes `registry`, taking every call site's decoder into the
    /// consumer's table, which then serves every later record. A call site
    /// registered after this has no decoder here.
    pub fn new(registry: &mut CallSiteRegistry, directory: Receiver<cueue::Reader<u8>>) -> (r: Result<Consumer, FreezeError>)
        ensures
            r is Ok <==> forall|i: int| 0 <= i < old(registry)@.len() ==> (#[trigger] old(registry)@[i]).fmt_fn is Some,
            r is Ok ==> frozen(old(registry)@, final(registry)@),
            r is Err ==> final(registry)@ == old(registry)@,
            r matches Ok(c) ==> {
                &&& c.live() == 0
                &&& c.sweep_count() == 0
                &&& c.decoder_table().len() == old(registry)@.len()
                &&& forall|i: int| 0 <= i < old(registry)@.len() ==> {
                    &&& (#[trigger] c.decoder_table()[i]).site() == Some(i as nat)
                    &&& c.decoder_table()[i].arity() == old(registry)@[i].fmt_fn->Some_0.arity()
                }
            },
    {
        match registry.freeze() {
            Ok(decoders) => Ok(Consumer { readers: Vec::new(), directory, decoders, sweeps: 0 }),
            Err(e) => Err(e),
        }
    }

    /// The number of live reader handles.
    pub fn live_handles(&self) -> (r: usize)
        ensures
            r == self.live(),
    {
        self.readers.len()
    }

    /// One sweep: drains every live handle in order, keeps, in order, those
    /// not found drained for good (a handle is dropped only when its writer
    /// was gone before a read that found nothing), and, every
    /// `POLL_EVERY`-th sweep starting with the first, takes in every handle
    /// waiting in the directory after them. Stops at the first chunk that
    /// does not decode, releasing none of it and keeping every handle. With no
    /// live handle nothing is read, and the sweep succeeds.
    pub fn sweep(&mut self) -> (r: Result<SweepReport, DecodeCorruption>)
        ensures
            final(self).decoder_table() == old(self).decoder_table(),
            old(self).live() == 0 ==> r is Ok,
            r matches Err(e) ==> exists|i: int|
                0 <= i < final(self).live() && stuck(#[trigger] final(self).handles()[i], e, decoder_views(old(self).decoder_table())),
            r matches Ok(rep) ==> {
                &&& rep.drains@.len() == old(self).live()
                &&& forall|i: int| 0 <= i < old(self).live() ==> {
                    &&& (#[trigger] rep.drains@[i]).before == old(self).handles()[i]
                    &&& drain_ok(rep.drains@[i], decoder_views(old(self).decoder_table()))
                }
                &&& views(rep.records@) == all_records(rep.drains@)
                &&& final(self).handles().take(kept(rep.drains@).len() as int) == kept(rep.drains@)
                &&& final(self).live() == kept(rep.drains@).len() + rep.joined
                &&& rep.retired == old(self).live() - kept(rep.drains@).len()
                &&& final(self).sweep_count() == old(self).sweep_count().wrapping_add(1)
                &&& old(self).sweep_count() % POLL_EVERY != 0 ==> rep.joined == 0
            },
    {
        let mut rest: Vec<cueue::Reader<u8>> = Vec::new();
        std::mem::swap(&mut rest, &mut self.readers);
        let ghost hs0 = rest@;
        let ghost table = decoder_views(self.decoders@);
        let ghost mut ds: Seq<HandleDrain> = Seq::empty();
        let mut records: Vec<LogRecord> = Vec::new();
        let mut retired: usize = 0;
        let n = rest.len();
        let mut k: usize = 0;
        while k < n
            invariant
                self.decoders@ == old(self).decoders@,
                self.sweeps == old(self).sweeps,
                table == decoder_views(self.decoders@),
                hs0 == old(self).readers@,
                n == hs0.len(),
                k <= n,
                rest@ == hs0.skip(k as int),
                ds.len() == k,
                forall|i: int| 0 <= i < k ==> {
                    &&& (#[trigger] ds[i]).before == hs0[i]
                    &&& drain_ok(ds[i], table)
                },
                self.readers@ == kept(ds),
                views(records@) == all_records(ds),
                retired + kept(ds).len() == k,
            decreases n - k,
        {
            proof {
                assert(rest@.len() == n - k);
            }
            let mut h = rest.remove(0);
            proof {
                assert(h == hs0[k as int]);
                assert(rest@ =~= hs0.skip(k + 1));
            }
            let ghost h0 = h;
            match drain_reader(&mut h, &self.decoders) {
                Ok(d) => {
                    let ghost o = HandleDrain {
                        before: h0,
                        after: h,
                        bytes: d.bytes as nat,
                        records: views(d.records@),
                        finished: d.finished,
                    };
                    let ghost before_recs = records@;
                    let finished = d.finished;
                    let mut got = d.records;
                    records.append(&mut got);
                    proof {
                        let ds1 = ds.push(o);
                        assert(ds1.drop_last() =~= ds);
                        assert(views(records@) =~= views(before_recs) + o.records);
                        assert(all_records(ds1) == all_records(ds) + o.records);
                    }
                    if finished {
                        retired = retired + 1;
                    } else {
                        self.readers.push(h);
                    }
                    proof {
                        let ds1 = ds.push(o);
                        assert(ds1.drop_last() =~= ds);
                        if finished {
                            assert(kept(ds1) =~= kept(ds));
                        } else {
                            assert(kept(ds1) =~= kept(ds).push(h));
                        }
                        ds = ds1;
                    }
                },
                Err(e) => {
                    let ghost at = self.readers@.len();
                    self.readers.push(h);
                    self.readers.append(&mut rest);
                    proof {
                        assert(self.readers@[at as int] == h);
                        assert(self.handles()[at as int] == h);
                        assert(stuck(self.handles()[at as int], e, decoder_views(old(self).decoder_table())));
                        assert(0 <= at < self.live());
                    }
                    return Err(e);
                },
            }
            k = k + 1;
        }
        let mut joined: usize = 0;
        if self.sweeps % POLL_EVERY == 0 {
            let mut fresh = take_waiting(&self.directory);
            joined = fresh.len();
            self.readers.append(&mut fresh);
        }
        proof {
            assert(self.readers@.take(kept(ds).len() as int) =~= kept(ds));
        }
        self.sweeps = self.sweeps.wrapping_add(1);
        Ok(SweepReport { records, retired, joined, drains: Ghost(ds) })
    }
}

} // verus!
