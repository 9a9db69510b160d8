//! Which answers are read while data frames go out.

use supvan::spp::{answer_plan, SppCodec, SppPipe};

struct Pipe {
    acks: bool,
}

impl SppPipe for Pipe {
    fn acks_data_frames(&self) -> bool {
        self.acks
    }
}

struct Plain;

impl SppPipe for Plain {}

fn asked_for(acks: bool, read_final_response: bool) -> Vec<bool> {
    // Three frames' worth of payload.
    SppCodec::new(Pipe { acks }).bulk_answers(3, read_final_response)
}

#[test]
fn acking_links_drain_every_frame_but_honour_the_final_flag() {
    assert_eq!(asked_for(true, false), vec![true, true, false]);
    assert_eq!(asked_for(true, true), vec![true, true, true]);
}

#[test]
fn non_acking_links_never_wait() {
    assert_eq!(asked_for(false, false), vec![false, false, false]);
    assert_eq!(asked_for(false, true), vec![false, false, false]);
}

#[test]
fn links_ack_unless_they_say_otherwise() {
    assert_eq!(SppCodec::new(Plain).bulk_answers(2, false), vec![true, false]);
    assert_eq!(answer_plan(true, 0, true), Vec::<bool>::new());
}

#[test]
fn bulk_headers_carry_block_size_and_packets() {
    assert_eq!(SppCodec::new(Plain).bulk_header(9), (512, 9));
    assert_eq!(SppCodec::new(Plain).bulk_header(65537), (512, 1));
}
