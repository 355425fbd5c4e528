//! The ring that carries frames from the capture callback to the analysis.
//!
//! The two ends work on different threads, so what an end finds depends on the
//! other. Each end is described by its own past: what the producer has put in,
//! and what the consumer has taken out, has counted and has found of the
//! producer. What was counted stays there until it is taken, and a producer that
//! is gone stays gone.

use crate::level::Level;
use vstd::prelude::*;

verus! {

/// The number of frames that the ring holds: about a second.
pub const RING_CAPACITY: usize = 48000;

/// One captured frame: the mean of all channels, and the first two.
#[derive(Clone, Copy, Debug, PartialEq, Eq, Structural)]
pub struct CaptureFrame {
    pub mono: Level,
    pub left: Level,
    pub right: Level,
}

/// The producing end of a ring of the `rtrb` crate.
#[verifier::external_type_specification]
#[verifier::external_body]
#[verifier::reject_recursive_types(T)]
pub struct ExProducer<T>(rtrb::Producer<T>);

/// The consuming end of a ring of the `rtrb` crate.
#[verifier::external_type_specification]
#[verifier::external_body]
#[verifier::reject_recursive_types(T)]
pub struct ExConsumer<T>(rtrb::Consumer<T>);

/// The frames that went in through this producer so far, in order.
pub uninterp spec fn put_in(producer: rtrb::Producer<CaptureFrame>) -> Seq<CaptureFrame>;

/// How many frames the ring of this producer can hold.
pub uninterp spec fn ring_limit(producer: rtrb::Producer<CaptureFrame>) -> nat;

/// The frames that came out through this consumer so far, in order.
pub uninterp spec fn taken_out(consumer: rtrb::Consumer<CaptureFrame>) -> Seq<CaptureFrame>;

/// How many frames the last count found that have not come out since.
pub uninterp spec fn counted(consumer: rtrb::Consumer<CaptureFrame>) -> nat;

/// The producer has been found gone.
pub uninterp spec fn found_gone(consumer: rtrb::Consumer<CaptureFrame>) -> bool;

/// The last count was made after the producer had been found gone, so that no
/// frame can be there but those it found.
pub uninterp spec fn counted_all(consumer: rtrb::Consumer<CaptureFrame>) -> bool;

/// The two ends of a new ring, of `rtrb::RingBuffer::new`: it can hold `capacity`
/// frames, nothing has gone in or come out, nothing was counted, and the producer
/// is there. It panics only where the ring would exceed the address space,
/// which the bound on the capacity rules out.
#[verifier::external_body]
fn ring_new(capacity: usize) -> (out: (rtrb::Producer<CaptureFrame>, rtrb::Consumer<CaptureFrame>))
    requires
        capacity <= 1000000,
    ensures
        ring_limit(out.0) == capacity,
        put_in(out.0) == Seq::<CaptureFrame>::empty(),
        taken_out(out.1) == Seq::<CaptureFrame>::empty(),
        counted(out.1) == 0,
        !found_gone(out.1),
        !counted_all(out.1),
{
    rtrb::RingBuffer::<CaptureFrame>::new(capacity)
}

/// Puts one frame in, by `rtrb::Producer::push`: it goes in unless the ring is
/// full, in which case nothing changes. A ring is not full that fewer frames than
/// it can hold ever went into. Whether another one is depends on the consumer's
/// thread and is left open.
#[verifier::external_body]
fn ring_push(producer: &mut rtrb::Producer<CaptureFrame>, frame: CaptureFrame) -> (accepted: bool)
    ensures
        put_in(*final(producer)) == (if accepted {
            put_in(*old(producer)).push(frame)
        } else {
            put_in(*old(producer))
        }),
        ring_limit(*final(producer)) == ring_limit(*old(producer)),
        put_in(*old(producer)).len() < ring_limit(*old(producer)) ==> accepted,
{
    producer.push(frame).is_ok()
}

/// Takes one frame out, by `rtrb::Consumer::pop`: none where the ring is empty,
/// in which case nothing changes. A frame that was counted is there, and once all
/// have been counted there is no other. Whether an uncounted one is there, and
/// which frame comes, depends on the producer's thread and is left open.
#[verifier::external_body]
fn ring_pop(consumer: &mut rtrb::Consumer<CaptureFrame>) -> (out: Option<CaptureFrame>)
    ensures
        taken_out(*final(consumer)) == (match out {
            Some(frame) => taken_out(*old(consumer)).push(frame),
            None => taken_out(*old(consumer)),
        }),
        counted(*old(consumer)) > 0 ==> out is Some,
        counted_all(*old(consumer)) && counted(*old(consumer)) == 0 ==> out is None,
        counted(*final(consumer)) == (if counted(*old(consumer)) > 0 {
            counted(*old(consumer)) - 1
        } else {
            0
        }),
        found_gone(*final(consumer)) == found_gone(*old(consumer)),
        counted_all(*final(consumer)) == counted_all(*old(consumer)),
{
    consumer.pop().ok()
}

/// Counts the frames that can be taken out at this moment, by
/// `rtrb::Consumer::slots`: at least those that were counted before and are still
/// there, and all of them where the producer had been found gone. How many more
/// there are depends on the producer's thread and is left open.
#[verifier::external_body]
fn ring_slots(consumer: &mut rtrb::Consumer<CaptureFrame>) -> (n: usize)
    ensures
        n == counted(*final(consumer)),
        n >= counted(*old(consumer)),
        counted_all(*old(consumer)) ==> n == counted(*old(consumer)),
        counted_all(*final(consumer)) == found_gone(*old(consumer)),
        found_gone(*final(consumer)) == found_gone(*old(consumer)),
        taken_out(*final(consumer)) == taken_out(*old(consumer)),
{
    consumer.slots()
}

/// Looks whether the producer is gone, by `rtrb::Consumer::is_abandoned`: one that
/// was found gone stays gone. Whether one goes depends on its thread and is left
/// open.
#[verifier::external_body]
fn ring_abandoned(consumer: &mut rtrb::Consumer<CaptureFrame>) -> (yes: bool)
    ensures
        yes == found_gone(*final(consumer)),
        found_gone(*old(consumer)) ==> yes,
        counted(*final(consumer)) == counted(*old(consumer)),
        counted_all(*final(consumer)) == counted_all(*old(consumer)),
        taken_out(*final(consumer)) == taken_out(*old(consumer)),
{
    consumer.is_abandoned()
}

/// The two ends of a new capture ring.
pub fn capture_ring() -> (out: (rtrb::Producer<CaptureFrame>, rtrb::Consumer<CaptureFrame>))
    ensures
        ring_limit(out.0) == RING_CAPACITY,
        ring_limit(out.0) == 48000,
        put_in(out.0) == Seq::<CaptureFrame>::empty(),
        taken_out(out.1) == Seq::<CaptureFrame>::empty(),
        counted(out.1) == 0,
        !found_gone(out.1),
        !counted_all(out.1),
{
    ring_new(RING_CAPACITY)
}

/// The count of lost frames after one was offered.
pub fn overruns_after(accepted: bool, overruns: u64) -> (out: u64)
    ensures
        out == (if accepted {
            overruns as int
        } else if overruns == u64::MAX {
            0
        } else {
            overruns + 1
        }),
{
    if accepted {
        overruns
    } else if overruns == u64::MAX {
        0
    } else {
        overruns + 1
    }
}

/// Offers one frame to the ring. A full ring does not make the capture wait: the
/// frame is dropped and counted. Nothing is dropped before as many frames have
/// gone in as the ring can hold. Gives the new count of dropped frames.
pub fn offer_frame(
    producer: &mut rtrb::Producer<CaptureFrame>,
    frame: CaptureFrame,
    overruns: u64,
) -> (out: u64)
    ensures
        ({
            ||| put_in(*final(producer)) == put_in(*old(producer)).push(frame) && out == overruns
            ||| put_in(*final(producer)) == put_in(*old(producer)) && out == (if overruns
                == u64::MAX {
                0
            } else {
                overruns + 1
            })
        }),
        ring_limit(*final(producer)) == ring_limit(*old(producer)),
        put_in(*old(producer)).len() < ring_limit(*old(producer)) ==> put_in(*final(producer))
            == put_in(*old(producer)).push(frame) && out == overruns,
{
    let accepted = ring_push(producer, frame);
    overruns_after(accepted, overruns)
}

/// Takes the frames out that are there at this moment and appends them to `out`
/// in the order in which they come. Gives their number: no frame that was counted
/// before stays behind, and once all have been counted it is their number.
pub fn drain_available(
    consumer: &mut rtrb::Consumer<CaptureFrame>,
    out: &mut Vec<CaptureFrame>,
) -> (n: usize)
    ensures
        final(out)@.len() == old(out)@.len() + n,
        final(out)@.take(old(out)@.len() as int) == old(out)@,
        taken_out(*final(consumer)) == taken_out(*old(consumer)) + final(out)@.skip(
            old(out)@.len() as int,
        ),
        n >= counted(*old(consumer)),
        counted_all(*old(consumer)) ==> n == counted(*old(consumer)),
        counted(*final(consumer)) == 0,
        counted_all(*final(consumer)) == found_gone(*old(consumer)),
        found_gone(*final(consumer)) == found_gone(*old(consumer)),
{
    let available: usize = ring_slots(consumer);
    let ghost start = out@;
    let ghost before = taken_out(*consumer);
    let mut n: usize = 0;
    assert(start.skip(start.len() as int) =~= Seq::<CaptureFrame>::empty());
    assert(before + start.skip(start.len() as int) =~= before);
    while n < available
        invariant
            n <= available,
            start == old(out)@,
            before == taken_out(*old(consumer)),
            out@.len() == start.len() + n,
            out@.take(start.len() as int) == start,
            taken_out(*consumer) == before + out@.skip(start.len() as int),
            counted(*consumer) == available - n,
            counted_all(*consumer) == found_gone(*old(consumer)),
            found_gone(*consumer) == found_gone(*old(consumer)),
            available >= counted(*old(consumer)),
            counted_all(*old(consumer)) ==> available == counted(*old(consumer)),
        decreases available - n,
    {
        match ring_pop(consumer) {
            None => {
                return n;
            },
            Some(frame) => {
                let ghost so_far = out@;
                out.push(frame);
                n += 1;
                assert(out@.skip(start.len() as int) =~= so_far.skip(start.len() as int).push(
                    frame,
                ));
                assert(out@.take(start.len() as int) =~= start);
                assert(taken_out(*consumer) =~= before + out@.skip(start.len() as int));
            },
        }
    }
    n
}

/// What the analysis finds of the ring: whether the capture is gone, what is
/// left, and whether that is the end.
pub struct RingStatus {
    pub abandoned: bool,
    pub slots: usize,
    pub finished: bool,
}

/// Looks at the ring. The analysis ends once the capture is gone and nothing is
/// left: the frames are counted after the look at the capture, so that at the end
/// no frame is there or will come.
pub fn ring_status(consumer: &mut rtrb::Consumer<CaptureFrame>) -> (out: RingStatus)
    ensures
        out.abandoned == found_gone(*final(consumer)),
        found_gone(*old(consumer)) ==> out.abandoned,
        out.slots == counted(*final(consumer)),
        out.slots >= counted(*old(consumer)),
        counted_all(*old(consumer)) ==> out.slots == counted(*old(consumer)),
        counted_all(*final(consumer)) == out.abandoned,
        taken_out(*final(consumer)) == taken_out(*old(consumer)),
        out.finished == (out.abandoned && out.slots == 0),
{
    let abandoned = ring_abandoned(consumer);
    let slots: usize = ring_slots(consumer);
    RingStatus { abandoned, slots, finished: abandoned && slots == 0 }
}

// ---------------------------------------------------------------------------
// Laws
// ---------------------------------------------------------------------------
/// A frame that goes in leaves the count of lost frames as it was, and one that does
/// not adds one to it; behind its largest number the count begins anew.
pub proof fn law_lost_frames_are_counted(overruns: u64, kept: u64, lost: u64)
    requires
        call_ensures(overruns_after, (true, overruns), kept),
        call_ensures(overruns_after, (false, overruns), lost),
    ensures
        kept == overruns,
        overruns < u64::MAX ==> lost == overruns + 1,
        overruns == u64::MAX ==> lost == 0,
        lost != kept,
{
}

} // verus!
