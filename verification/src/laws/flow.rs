//! The print flow: what a printer is asked, and in what order.

use crate::bytes::ceil_div;
use crate::error::Error;
use crate::printer::{
    after_sleep, after_status, all_fit, finished_prints_sent_every_block_once, job_after,
    packet_count, Phase, PrintFault, PrintJob, Printer, Provision, ProvisionReply, ProvisionRequest,
    Reply, Request, Wait, WaitKind, WaitStep,
};
use crate::status::PrinterStatus;
use vstd::prelude::*;

verus! {

/// The request moves a block: announces it, sends it or closes it.
pub open spec fn moves_a_block(r: Request) -> bool {
    r is BulkHeader || r is BulkData || r is BufFull
}

/// What was asked of the printer to move blocks, over a row of replies.
pub open spec fn transfers(job: PrintJob, replies: Seq<Reply>) -> Seq<Request>
    decreases replies.len(),
{
    if replies.len() == 0 {
        Seq::empty()
    } else {
        let front = transfers(job, replies.drop_last());
        let asked = job_after(job, replies.drop_last()).next(replies.last()).1;
        if moves_a_block(asked) {
            front.push(asked)
        } else {
            front
        }
    }
}

/// Request `k` of a transfer of the blocks with the given lengths: every block is
/// announced, sent and closed, before the next one is. It is announced with its
/// length and with as few packets as carry it, and closed with its length and
/// the speed of the page.
pub open spec fn is_transfer(
    lens: Seq<usize>,
    payload: usize,
    speed: u16,
    k: int,
    r: Request,
) -> bool {
    let b = k / 3;
    &&& b < lens.len()
    &&& k % 3 == 0 ==> {
        &&& r matches Request::BulkHeader { len, packets }
        &&& len == lens[b] as int % 65536
        &&& (packets - 1) * payload < lens[b] <= packets * payload
    }
    &&& k % 3 == 1 ==> (r matches Request::BulkData { block } && block == b)
    &&& k % 3 == 2 ==> {
        &&& r matches Request::BufFull { len, speed: s }
        &&& len == lens[b] as int % 65536
        &&& s == speed
    }
}

/// How many transfer requests were made when the print stands at a phase.
pub open spec fn made(job: PrintJob) -> int {
    match job.phase {
        Phase::Buffer(b, _) => 3 * b,
        Phase::Header(b) => 3 * b + 1,
        Phase::Data(b) | Phase::Pause(b) => 3 * b + 2,
        Phase::Full(b) => 3 * b + 3,
        Phase::Completion(_) => 3 * job.lens@.len() as int,
        _ => 0,
    }
}

proof fn lemma_packets(len: int, payload: int, p: int)
    requires
        0 <= len,
        0 < payload,
        p == ceil_div(len, payload),
    ensures
        (p - 1) * payload < len <= p * payload,
        0 <= p <= len,
{
    assert((p - 1) * payload < len && len <= p * payload && 0 <= p <= len) by (nonlinear_arith)
        requires
            0 <= len,
            0 < payload,
            p == (len + payload - 1) / payload,
    ;
}

/// Whatever the printer answers, the transfer requests of a print are those of
/// its blocks, in order, each closed at the speed that the print was started
/// with; a print that finished has made them all.
pub proof fn blocks_are_announced_sent_and_closed(job: PrintJob, replies: Seq<Reply>, k: int)
    requires
        job.wf(),
        job.phase is Check,
        all_fit(job, replies),
    ensures
        0 <= k < transfers(job, replies).len() ==> is_transfer(
            job.lens@,
            job.payload,
            job.speed,
            k,
            transfers(job, replies)[k],
        ),
        replies.len() > 0 && job_after(job, replies.drop_last()).next(replies.last()).1 is Finished
            ==> transfers(job, replies).len() == 3 * job.lens@.len(),
        job_after(job, replies).phase !is Over ==> transfers(job, replies).len() == made(
            job_after(job, replies),
        ),
    decreases replies.len(),
{
    if replies.len() > 0 {
        let front = replies.drop_last();
        let last = replies.last();
        let before = job_after(job, front);
        blocks_are_announced_sent_and_closed(job, front, k);
        finished_prints_sent_every_block_once(job, front);
        lemma_same_print(job, front);
        assert(before.lens.len() == before.lens@.len());
        let n = transfers(job, front).len() as int;
        match before.phase {
            Phase::Buffer(b, _) => {
                let len = job.lens@[b as int] as int;
                lemma_packets(len, job.payload as int, ceil_div(len, job.payload as int));
            },
            _ => {},
        }
        if moves_a_block(before.next(last).1) && k == n {
            assert(transfers(job, replies)[k] == before.next(last).1);
        }
    }
}

proof fn lemma_same_print(job: PrintJob, replies: Seq<Reply>)
    ensures
        job_after(job, replies).lens == job.lens,
        job_after(job, replies).payload == job.payload,
        job_after(job, replies).speed == job.speed,
    decreases replies.len(),
{
    if replies.len() > 0 {
        lemma_same_print(job, replies.drop_last());
    }
}

/// Closing a block carries its length and the speed of the print, and follows
/// its data after a pause of twenty milliseconds.
pub proof fn blocks_are_closed_at_the_speed_of_the_page(job: PrintJob, reply: Reply)
    requires
        job.wf(),
        job.fits(reply),
    ensures
        job.next(reply).1 matches Request::BufFull { len, speed } ==> {
            &&& speed == job.speed
            &&& job.phase matches Phase::Pause(b) && len == job.lens@[b as int] as int % 65536
        },
        job.phase matches Phase::Data(b) ==> job.next(reply) == (
            Phase::Pause(b),
            Request::Sleep(20),
        ),
{
}

/// The printer is started only where it is neither busy nor printing and raises
/// no error; a block is announced only where there is space and no error; a
/// print finishes only where the printer is neither busy nor printing again.
pub proof fn every_step_waits_for_its_state(job: PrintJob, reply: Reply)
    requires
        job.wf(),
        job.fits(reply),
    ensures
        job.next(reply).1 is StartPrint ==> (reply matches Reply::Status(Some(s))
            && !s.device_busy && !s.printing && !s.has_error),
        job.next(reply).1 is BulkHeader ==> (reply matches Reply::Status(Some(s)) && !s.buf_full
            && !s.has_error),
        job.next(reply).1 is Finished ==> (reply matches Reply::Status(Some(s))
            && !s.device_busy && !s.printing),
        job.phase is Printing && job.next(reply).0 is Buffer ==> (reply matches Reply::Status(
            Some(s),
        ) && s.printing && !s.has_error),
        job.next(reply).1 is BulkData ==> reply == Reply::Answered(true),
        job.next(reply).1 matches Request::Sleep(ms) ==> ms == 20 || ms == 100,
{
}

/// A status that meets the state waited for is acted on at once, and an error
/// flag, once the print was started, ends it with what the printer said.
pub proof fn states_are_acted_on_at_once(job: PrintJob, s: PrinterStatus)
    requires
        job.wf(),
        job.fits(Reply::Status(Some(s))),
    ensures
        ({
            let (phase, asked) = job.next(Reply::Status(Some(s)));
            let idle = !s.device_busy && !s.printing;
            &&& job.phase is Ready && idle && !s.has_error ==> asked is StartPrint
            &&& job.phase is Ready && idle && s.has_error ==> asked == Request::Failed(
                PrintFault::BeforeStart(s.error_description),
            )
            &&& job.phase is Ready && !idle ==> phase is Ready && asked == Request::Sleep(100)
            &&& job.phase is Printing && s.has_error ==> asked == Request::Failed(
                PrintFault::AfterStart(s.error_description),
            )
            &&& job.phase is Printing && !s.has_error && s.printing ==> (
            phase matches Phase::Buffer(b, _) && b == 0 && asked == Request::Sleep(20))
            &&& job.phase is Buffer && s.has_error ==> asked == Request::Failed(
                PrintFault::AtBuffer(s.error_description),
            )
            &&& job.phase is Buffer && !s.has_error && !s.buf_full ==> asked is BulkHeader
            &&& job.phase is Completion && idle ==> asked is Finished
        }),
{
}

/// The faults are told apart: each failure names the step that it happened at.
pub proof fn failures_name_their_step(job: PrintJob, reply: Reply)
    requires
        job.wf(),
        job.fits(reply),
    ensures
        job.next(reply).1 matches Request::Failed(fault) ==> match job.phase {
            Phase::Check => fault is NotPresent && reply == Reply::Acked(false),
            Phase::Ready(w) => fault is NotReady && w.left == 1 || fault is BeforeStart,
            Phase::Printing(w) => fault is NoStation && w.left == 1 || fault is AfterStart,
            Phase::Buffer(_, w) => fault is NoBuffer && w.left == 1 || fault is AtBuffer,
            Phase::Header(_) => fault is NoBulkReply && reply == Reply::Answered(false),
            Phase::Completion(w) => fault is Incomplete && w.left == 1,
            _ => false,
        },
{
}

/// A wait makes as many status polls as it was given, and no more: every poll
/// that does not settle it uses one of them up, and it gives up with the last.
pub proof fn waits_use_up_their_polls(w: Wait)
    requires
        w.wf(),
    ensures
        ({
            let looked = after_status(w, None);
            let slept = after_sleep(w);
            &&& w.kind == WaitKind::Buffer || w.kind == WaitKind::Completion ==> {
                &&& looked.0.left == w.left - 1
                &&& looked.1 is GaveUp <==> w.left == 1
                &&& slept.0.left == w.left && slept.1 is Query
            }
            &&& w.kind == WaitKind::Ready || w.kind == WaitKind::Printing ==> {
                &&& looked.0.left == w.left && looked.1 is Sleep
                &&& slept.0.left == w.left - 1
                &&& slept.1 is GaveUp <==> w.left == 1
                &&& slept.1 !is GaveUp ==> slept.1 is Query
            }
        }),
{
}

/// Each wait has its polls and its interval: sixty for an idle printer and for
/// the printing station, two hundred for space, three hundred for the end; twenty
/// milliseconds apart for space, a hundred otherwise.
pub proof fn every_wait_has_its_polls(job: PrintJob, reply: Reply)
    requires
        job.wf(),
        job.fits(reply),
    ensures
        ({
            let (phase, asked) = job.next(reply);
            &&& job.phase is Check && reply == Reply::Acked(true) ==> (phase matches Phase::Ready(w)
                && w.left == 60 && asked is QueryStatus)
            &&& job.phase is Start ==> (phase matches Phase::Printing(w) && w.left == 60
                && asked is QueryStatus)
            &&& job.phase !is Buffer && phase is Buffer ==> (phase matches Phase::Buffer(_, w)
                && w.left == 200 && asked == Request::Sleep(20))
            &&& job.phase is Full && phase !is Buffer ==> (phase matches Phase::Completion(w)
                && w.left == 300 && asked == Request::Sleep(100))
            &&& asked is Sleep && phase is Buffer ==> asked == Request::Sleep(20)
            &&& asked is Sleep && (phase is Ready || phase is Printing || phase is Completion)
                ==> asked == Request::Sleep(100)
        }),
{
}

/// A status that does not settle a wait is as good as none.
pub proof fn unmet_states_are_waited_out(w: Wait, s: PrinterStatus)
    requires
        w.wf(),
    ensures
        ({
            let idle = !s.device_busy && !s.printing;
            let met = match w.kind {
                WaitKind::Ready | WaitKind::Completion => idle,
                WaitKind::Printing => s.printing && !s.has_error,
                WaitKind::Buffer => !s.buf_full && !s.has_error,
            };
            let faulty = s.has_error && (w.kind is Printing || w.kind is Buffer);
            &&& met ==> after_status(w, Some(s)).1 == WaitStep::Met(s)
            &&& faulty ==> after_status(w, Some(s)).1 == WaitStep::Faulty(
                s.error_description,
            )
            &&& !met && !faulty ==> after_status(w, Some(s))
                == after_status(w, None)
        }),
{
}

/// Each of the waits of a printer is for its own state, with the polls that were
/// allowed; one without polls gives up at once.
pub proof fn waits_are_for_what_they_say<T>(
    p: &Printer<T>,
    n: usize,
    ready: (Wait, WaitStep),
    printing: (Wait, WaitStep),
    buffer: (Wait, WaitStep),
)
    requires
        call_ensures(Printer::<T>::wait_ready, (p, n), ready),
        call_ensures(Printer::<T>::wait_printing, (p, n), printing),
        call_ensures(Printer::<T>::wait_buffer_ready, (p, n), buffer),
    ensures
        ready.0.kind is Ready && printing.0.kind is Printing && buffer.0.kind is Buffer,
        ready.0.left == n && printing.0.left == n && buffer.0.left == n,
        n == 0 ==> ready.1 is GaveUp && printing.1 is GaveUp && buffer.1 is GaveUp,
        n > 0 ==> ready.1 is Query && printing.1 is Query && buffer.1 == WaitStep::Sleep(20),
{
}

/// A print is of the blocks that it is given, with their lengths, in order.
pub proof fn prints_are_of_the_blocks_given<T>(
    p: &Printer<T>,
    blocks: &[Vec<u8>],
    payload: usize,
    speed: u16,
    r: (PrintJob, Request),
    i: int,
)
    requires
        call_ensures(Printer::<T>::print_compressed, (p, blocks, payload, speed), r),
        0 <= i < blocks@.len(),
    ensures
        r.0.phase is Check && r.1 is CheckDevice,
        r.0.speed == speed && r.0.payload == payload,
        r.0.lens@.len() == blocks@.len(),
        r.0.lens@[i] == blocks@[i]@.len(),
{
}

/// A fault is reported with what the printer said of it, and a print that never
/// ends as a timeout.
pub proof fn faults_are_reported_with_what_was_said(fault: PrintFault, said: String, e: Error)
    requires
        call_ensures(PrintFault::error, (fault,), e),
    ensures
        fault == PrintFault::BeforeStart(Some(said)) ==> (e matches Error::InvalidResponse(m) && m@
            == "printer error: "@ + said@),
        fault == PrintFault::AfterStart(Some(said)) ==> (e matches Error::InvalidResponse(m) && m@
            == "printer error after START_PRINT: "@ + said@),
        fault == PrintFault::AtBuffer(Some(said)) ==> (e matches Error::InvalidResponse(m) && m@
            == "printer error while waiting for buffer: "@ + said@),
        e is Timeout <==> fault is Incomplete,
        fault !is Incomplete ==> e is InvalidResponse,
{
}

/// As few packets as carry the bytes.
pub proof fn packets_just_carry_the_bytes(len: usize, payload: usize, packets: usize)
    requires
        payload > 0,
        call_ensures(packet_count, (len, payload), packets),
    ensures
        (packets - 1) * payload < len <= packets * payload,
{
    lemma_packets(len as int, payload as int, packets as int);
}

/// A record is written only once its announcement was acknowledged; it is then
/// polled for every two hundred milliseconds, taken where its identifier comes
/// back and only there, and given up with what was read last.
pub proof fn records_are_written_then_confirmed(p: Provision, reply: ProvisionReply)
    requires
        p.wf(),
        p.fits(reply),
    ensures
        ({
            let (_, left, asked) = p.next(reply);
            &&& reply == ProvisionReply::Acked(true) ==> asked is WriteRecord
            &&& reply == ProvisionReply::Acked(false) ==> asked is NoAck
            &&& asked is WriteRecord ==> reply == ProvisionReply::Acked(true)
            &&& asked matches ProvisionRequest::Sleep(ms) ==> ms == 200
            &&& reply matches ProvisionReply::Material(m) ==> {
                let echoed = m matches Some(i) && i.uuid@ == p.expected@;
                &&& echoed ==> asked == ProvisionRequest::Taken(m.unwrap())
                &&& !echoed && p.left == 1 ==> asked == ProvisionRequest::NotTaken(m)
                &&& !echoed && p.left > 1 ==> asked is Sleep && left == p.left - 1
            }
            &&& reply !is Material ==> left == p.left
        }),
{
}

} // verus!
