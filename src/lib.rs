//! Drives a monochrome dot-matrix display: a bitmap canvas, the display's
//! bit-packed frame layout, the chunked binary write protocol, and the
//! bouncing-circle animation that feeds them.

mod animation;
mod canvas;
mod frame;
mod transport;

pub use animation::{lemma_bounce_periodic, Animation, RADIUS};
pub use canvas::{lemma_draw_circle_idempotent, Image, HEIGHT, WIDTH};
pub use frame::{lemma_encode_deterministic, lemma_encode_first_group, Frame, FRAME_LEN};
pub use transport::{RangeSender, Step, WritePacket, MAX_PAYLOAD};
