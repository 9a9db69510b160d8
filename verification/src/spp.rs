//! The serial-port framing shared by classic Bluetooth and BLE: which answers to
//! wait for while data frames go out.

use crate::bytes::low_word;
use vstd::prelude::*;

verus! {

/// Block size advertised in the bulk header.
pub const SPP_BLOCK_SIZE: u16 = 512;

/// A link that carries frames which are framed already.
pub trait SppPipe {
    /// Whether the link acks every data frame. Classic Bluetooth does; BLE does
    /// not, so a BLE pipe that waited would stall for the response timeout on
    /// every frame.
    fn acks_data_frames(&self) -> (r: bool)
        default_ensures
            r,
    {
        true
    }
}

/// Drives a pipe: knows what to send, while the pipe knows how.
#[derive(Debug)]
pub struct SppCodec<P: SppPipe> {
    pub pipe: P,
}

/// Whether to read an answer after frame `i` of `frames`.
///
/// The firmware acks each packet and expects that ack to be drained before the
/// next; otherwise leftover bytes confuse the next read. After the last frame an
/// answer is read only where one is wanted.
pub open spec fn wants_answer(acked: bool, i: int, frames: int, read_final: bool) -> bool {
    acked && (i != frames - 1 || read_final)
}

/// For each of `frames` data frames, whether to read an answer after it.
pub open spec fn wanted_answers(acked: bool, frames: int, read_final: bool) -> Seq<bool> {
    Seq::new(frames as nat, |i: int| wants_answer(acked, i, frames, read_final))
}

/// For each of `frames` data frames, whether to read an answer after it.
pub fn answer_plan(acked: bool, frames: usize, read_final: bool) -> (r: Vec<bool>)
    ensures
        r@ == wanted_answers(acked, frames as int, read_final),
{
    let mut plan: Vec<bool> = Vec::new();
    let mut i: usize = 0;
    while i < frames
        invariant
            i <= frames,
            plan@.len() == i,
            forall|j: int|
                0 <= j < i ==> #[trigger] plan@[j] == wants_answer(
                    acked,
                    j,
                    frames as int,
                    read_final,
                ),
        decreases frames - i,
    {
        plan.push(acked && (i != frames - 1 || read_final));
        i += 1;
    }
    assert(plan@ =~= wanted_answers(acked, frames as int, read_final));
    plan
}

impl<P: SppPipe> SppCodec<P> {
    pub fn new(pipe: P) -> (r: Self)
        ensures
            r.pipe == pipe,
    {
        SppCodec { pipe }
    }

    /// The two parameters of the bulk header: the block size and the low sixteen
    /// bits of the packet count.
    pub fn bulk_header(&self, num_packets: usize) -> (r: (u16, u16))
        ensures
            r.0 == 512,
            r.1 == num_packets % 65536,
    {
        (SPP_BLOCK_SIZE, low_word(num_packets))
    }

    /// For each of `frames` data frames, whether to read an answer after it: the
    /// plan that belongs to what the pipe answers of itself.
    pub fn bulk_answers(&self, frames: usize, read_final: bool) -> (r: Vec<bool>)
        ensures
            exists|acked: bool|
                #[trigger] call_ensures(P::acks_data_frames, (&self.pipe,), acked) && r@
                    == wanted_answers(acked, frames as int, read_final),
    {
        answer_plan(self.pipe.acks_data_frames(), frames, read_final)
    }
}

/// A link that does not ack is never waited for; one that does is drained after
/// every frame but the last, and after the last exactly where that is wanted.
pub proof fn answers_follow_the_link(i: int, frames: int, read_final: bool)
    ensures
        !wants_answer(false, i, frames, read_final),
        i < frames - 1 ==> wants_answer(true, i, frames, read_final),
        wants_answer(true, frames - 1, frames, read_final) == read_final,
{
}

/// On a link that only ever says that it does not ack, no answer is waited for;
/// on one that only ever says that it does, every frame is drained, the last
/// one exactly where that is wanted.
pub proof fn the_pipe_decides_the_answers<P: SppPipe>(
    codec: &SppCodec<P>,
    frames: usize,
    read_final: bool,
    acked: bool,
    r: Vec<bool>,
)
    requires
        forall|a: bool| #[trigger]
            call_ensures(P::acks_data_frames, (&codec.pipe,), a) ==> a == acked,
        call_ensures(SppCodec::<P>::bulk_answers, (codec, frames, read_final), r),
    ensures
        r@.len() == frames,
        forall|i: int|
            0 <= i < frames ==> #[trigger] r@[i] == (acked && (i < frames - 1 || read_final)),
{
}

} // verus!
