//! The producer side: a thread's records go, whole, into its own
//! single-producer byte queue.
use crate::codec::{encode_record, record_bytes, views, Loggable};
use crate::level::{admits, admits_spec, LogLevel};
use vstd::prelude::*;

verus! {

#[verifier::external_type_specification]
#[verifier::external_body]
#[verifier::reject_recursive_types(T)]
pub struct ExWriter<T>(cueue::Writer<T>);

/// Every byte the writer has committed so far, oldest first.
pub uninterp spec fn sent(w: cueue::Writer<u8>) -> Seq<u8>;

/// The writable chunk that the writer last handed out and has not committed.
pub uninterp spec fn staged(w: cueue::Writer<u8>) -> Seq<u8>;

/// Relies on `cueue::Writer::write_chunk`: it hands out the free part of the
/// buffer as one contiguous slice (the buffer is mapped twice, so the slice
/// never wraps), commits nothing, and what is written into the slice is what
/// a later `commit` publishes.
#[verifier::external_body]
fn write_chunk<'a>(w: &'a mut cueue::Writer<u8>) -> (r: &'a mut [u8])
    ensures
        sent(*final(w)) == sent(*old(w)),
        staged(*final(w)) == final(r)@,
        final(r)@.len() == r@.len(),
{
    w.write_chunk()
}

/// Relies on `cueue::Writer::commit`: it publishes the first `n` bytes of the
/// staged chunk, or all of it when it is shorter, and returns how many.
#[verifier::external_body]
fn commit(w: &mut cueue::Writer<u8>, n: usize) -> (r: usize)
    ensures
        r as int == if n < staged(*old(w)).len() { n as int } else { staged(*old(w)).len() as int },
        sent(*final(w)) == sent(*old(w)) + staged(*old(w)).subrange(0, r as int),
        staged(*final(w)) == staged(*old(w)).subrange(r as int, staged(*old(w)).len() as int),
{
    w.commit(n)
}

/// A record that did not fit in the free part of its queue and was dropped.
#[derive(Clone, Copy, Debug, PartialEq, Eq, Structural)]
pub struct EncodingOverflow {
    /// The size of the record.
    pub needed: usize,
    /// The free space that the queue had.
    pub available: usize,
}

/// Encodes a record of call site `site` with arguments `args` and commits it,
/// whole, to `w`; returns its size. When the queue's free space cannot hold it
/// the record is dropped and nothing is committed: the producer never waits.
pub fn log_record(w: &mut cueue::Writer<u8>, site: usize, args: &[Loggable]) -> (r: Result<usize, EncodingOverflow>)
    requires
        site <= i32::MAX,
    ensures
        r matches Ok(n) ==> {
            &&& sent(*final(w)) == sent(*old(w)) + record_bytes(site as nat, views(args@))
            &&& n == record_bytes(site as nat, views(args@)).len()
        },
        r matches Err(e) ==> {
            &&& sent(*final(w)) == sent(*old(w))
            &&& e.needed == record_bytes(site as nat, views(args@)).len()
            &&& e.available == staged(*final(w)).len()
            &&& e.available < e.needed
        },
{
    let bytes = encode_record(site, args);
    let chunk = write_chunk(w);
    let n = bytes.len();
    if chunk.len() < n {
        return Err(EncodingOverflow { needed: n, available: chunk.len() });
    }
    let ghost room = chunk@.len();
    let mut i: usize = 0;
    while i < n
        invariant
            0 <= i <= n,
            n == bytes@.len(),
            chunk@.len() == room >= n,
            forall|j: int| 0 <= j < i ==> chunk@[j] == bytes@[j],
        decreases n - i,
    {
        chunk[i] = bytes[i];
        i = i + 1;
    }
    assert(chunk@.subrange(0, n as int) =~= bytes@);
    let m = commit(w, n);
    Ok(m)
}

/// A logging thread's own end of its queue.
pub struct TLSWrapper {
    pub sender: cueue::Writer<u8>,
}

/// What became of one log call.
#[derive(Clone, Copy, Debug, PartialEq, Eq, Structural)]
pub enum LogOutcome {
    /// The call site's level is below the threshold: nothing was encoded.
    Filtered,
    /// The record was committed; it took this many bytes.
    Written(usize),
    /// The record did not fit and was dropped.
    Dropped(EncodingOverflow),
}

impl TLSWrapper {
    /// The thread's end of a fresh queue.
    pub fn new(sender: cueue::Writer<u8>) -> (r: Self)
        ensures
            r.sender == sender,
    {
        TLSWrapper { sender }
    }

    /// A log call of call site `site`, whose level is `site_level`, with
    /// arguments `args`, while the threshold stands at `gate`: the record is
    /// encoded exactly when the site's level is at least the threshold's, and then
    /// committed whole or, when the queue cannot take it, dropped.
    pub fn log(&mut self, gate: LogLevel, site_level: LogLevel, site: usize, args: &[Loggable]) -> (r: LogOutcome)
        requires
            site <= i32::MAX,
        ensures
            r == LogOutcome::Filtered <==> !admits_spec(site_level, gate),
            r matches LogOutcome::Written(n) ==> {
                &&& sent(final(self).sender) == sent(old(self).sender) + record_bytes(site as nat, views(args@))
                &&& n == record_bytes(site as nat, views(args@)).len()
            },
            !(r matches LogOutcome::Written(_)) ==> sent(final(self).sender) == sent(old(self).sender),
            r matches LogOutcome::Dropped(overflow) ==> {
                &&& overflow.needed == record_bytes(site as nat, views(args@)).len()
                &&& overflow.available == staged(final(self).sender).len()
                &&& overflow.available < overflow.needed
            },
    {
        if !admits(site_level, gate) {
            return LogOutcome::Filtered;
        }
        match log_record(&mut self.sender, site, args) {
            Ok(n) => LogOutcome::Written(n),
            Err(overflow) => LogOutcome::Dropped(overflow),
        }
    }
}

/// The call sites whose dropped records have been reported: a site that
/// drops records is reported once, however often and from however many
/// threads it drops them.
pub struct OverflowReports {
    reported: Vec<usize>,
}

impl View for OverflowReports {
    type V = Set<nat>;

    closed spec fn view(&self) -> Set<nat> {
        self.reported@.map_values(|s: usize| s as nat).to_set()
    }
}

impl OverflowReports {
    /// No site reported yet.
    pub fn new() -> (r: Self)
        ensures
            r@ == Set::<nat>::empty(),
    {
        let r = OverflowReports { reported: Vec::new() };
        proof {
            assert(r@ =~= Set::<nat>::empty());
        }
        r
    }

    /// Notes a drop by call site `site`; true exactly when it is the site's
    /// first, which is the one to report.
    pub fn first_drop(&mut self, site: usize) -> (r: bool)
        ensures
            r == !old(self)@.contains(site as nat),
            final(self)@ == old(self)@.insert(site as nat),
    {
        let mut i: usize = 0;
        while i < self.reported.len()
            invariant
                self.reported@ == old(self).reported@,
                i <= self.reported@.len(),
                forall|j: int| 0 <= j < i ==> self.reported@[j] != site,
            decreases self.reported@.len() - i,
        {
            if self.reported[i] == site {
                proof {
                    let m = self.reported@.map_values(|s: usize| s as nat);
                    assert(m[i as int] == site as nat);
                    assert(m.contains(site as nat));
                    assert(self@ =~= old(self)@.insert(site as nat));
                }
                return false;
            }
            i = i + 1;
        }
        let ghost m0 = self.reported@.map_values(|s: usize| s as nat);
        proof {
            assert(!m0.contains(site as nat)) by {
                if m0.contains(site as nat) {
                    let k = choose|k: int| 0 <= k < m0.len() && m0[k] == site as nat;
                    assert(self.reported@[k] == site);
                }
            }
        }
        self.reported.push(site);
        proof {
            assert(self.reported@.map_values(|s: usize| s as nat) =~= m0.push(site as nat));
            m0.lemma_push_to_set_commute(site as nat);
            assert(self@ =~= old(self)@.insert(site as nat));
        }
        true
    }
}

} // verus!
