use dotmatrix::{Animation, Frame, Image, RangeSender, Step, WritePacket, FRAME_LEN, HEIGHT, RADIUS, WIDTH};

fn inside(x: i64, y: i64, cx: i64, cy: i64, d: i64) -> bool {
    (x - cx) * (x - cx) + (y - cy) * (y - cy) < d * d
}

fn lit_pixels(img: &Image) -> Vec<(usize, usize)> {
    let mut out = Vec::new();
    for y in 0..HEIGHT {
        for x in 0..WIDTH {
            if img.pixel(x, y) {
                out.push((x, y));
            }
        }
    }
    out
}

/// Runs a sender to its end, failing the write of packet `fail_at` (if any);
/// returns the packets attempted and the final outcome.
fn run(sender: RangeSender, fail_at: Option<usize>) -> (Vec<(u16, Vec<u8>, Vec<u8>)>, Result<(), String>) {
    let mut attempted = Vec::new();
    let mut sender = sender;
    let mut last: Result<(), String> = Ok(());
    loop {
        match sender.step(last) {
            Step::Write(next, packet) => {
                attempted.push((packet.addr(), packet.header(), packet.payload().clone()));
                last = if fail_at == Some(attempted.len() - 1) {
                    Err(format!("timed out on packet {}", attempted.len() - 1))
                } else {
                    Ok(())
                };
                sender = next;
            }
            Step::Complete => return (attempted, Ok(())),
            Step::Abort(e) => return (attempted, Err(e)),
        }
    }
}

#[test]
fn new_canvas_is_blank() {
    let img = Image::new();
    assert!(lit_pixels(&img).is_empty());
}

#[test]
fn draw_circle_sets_exactly_the_inside() {
    let mut img = Image::new();
    img.draw_circle(72, 63, 12);
    for y in 0..HEIGHT {
        for x in 0..WIDTH {
            assert_eq!(img.pixel(x, y), inside(x as i64, y as i64, 72, 63, 12), "pixel ({}, {})", x, y);
        }
    }
    assert!(img.pixel(72, 63));
    assert!(img.pixel(83, 63));
    assert!(!img.pixel(84, 63));
}

#[test]
fn draw_circle_is_idempotent() {
    let mut once = Image::new();
    once.draw_circle(10, 20, 7);
    let mut twice = Image::new();
    twice.draw_circle(10, 20, 7);
    twice.draw_circle(10, 20, 7);
    assert_eq!(lit_pixels(&once), lit_pixels(&twice));
}

#[test]
fn draw_circle_only_adds_pixels() {
    let mut img = Image::new();
    img.set_pixel(0, 0, true);
    img.draw_circle(100, 100, 3);
    assert!(img.pixel(0, 0));
    assert!(img.pixel(100, 100));
}

#[test]
fn draw_circle_off_canvas_centre() {
    let mut img = Image::new();
    img.draw_circle(i32::MIN, i32::MAX, i32::MAX);
    img.draw_circle(-1000, -1000, 5);
    assert!(lit_pixels(&img).is_empty());
    img.draw_circle(0, 0, 2);
    assert_eq!(lit_pixels(&img), vec![(0, 0), (1, 0), (0, 1), (1, 1)]);
}

#[test]
fn draw_circle_zero_radius_draws_nothing() {
    let mut img = Image::new();
    img.draw_circle(50, 50, 0);
    assert!(lit_pixels(&img).is_empty());
}

#[test]
fn blank_canvas_encodes_to_zeros() {
    let frame = Frame::encode(&Image::new());
    assert_eq!(frame.as_bytes().len(), FRAME_LEN);
    assert!(frame.as_bytes().iter().all(|b| *b == 0));
    assert_eq!(Frame::new().as_bytes(), &vec![0u8; FRAME_LEN]);
}

#[test]
fn encoding_is_deterministic() {
    let mut img = Image::new();
    img.draw_circle(40, 30, 12);
    let a = Frame::encode(&img);
    let b = Frame::encode(&img);
    assert_eq!(a.as_bytes(), b.as_bytes());
    assert!(a.as_bytes().iter().any(|b| *b != 0));
}

#[test]
fn first_group_pattern_round_trip() {
    let p: u8 = 0b1011_0010;
    let mut img = Image::new();
    for b in 0..8 {
        img.set_pixel(b, 1, (p >> (7 - b)) & 1 == 1);
    }
    let frame = Frame::encode(&img);
    assert_eq!(frame.as_bytes()[0], p);
    assert!(frame.as_bytes()[1..].iter().all(|b| *b == 0));
}

#[test]
fn group_and_row_addressing() {
    // column group 3 of encoded row 5: canvas columns 27..35 of row 11
    let mut img = Image::new();
    img.set_pixel(27, 11, true);
    img.set_pixel(34, 11, true);
    let frame = Frame::encode(&img);
    assert_eq!(frame.as_bytes()[16 * 5 + 3], 0b1000_0001);
    assert_eq!(frame.into_bytes().iter().filter(|b| **b != 0).count(), 1);
}

#[test]
fn even_rows_and_ninth_column_are_not_encoded() {
    let mut img = Image::new();
    for x in 0..WIDTH {
        img.set_pixel(x, 0, true);
        img.set_pixel(x, 124, true);
    }
    for y in 0..HEIGHT {
        img.set_pixel(8, y, true);
        img.set_pixel(143, y, true);
    }
    let frame = Frame::encode(&img);
    assert!(frame.as_bytes().iter().all(|b| *b == 0));
}

#[test]
fn last_byte_is_last_group_of_last_odd_row() {
    let mut img = Image::new();
    img.set_pixel(135, 125, true);
    img.set_pixel(142, 125, true);
    let frame = Frame::encode(&img);
    assert_eq!(frame.as_bytes()[FRAME_LEN - 1], 0b1000_0001);
}

#[test]
fn packet_header_layout() {
    let p = WritePacket::new(0x0123, vec![9, 8, 7]);
    assert_eq!(p.header(), vec![0, 0b0010_0000, 0x01, 0x23, 3]);
    assert_eq!(p.addr(), 0x0123);
    assert_eq!(p.payload(), &vec![9, 8, 7]);
    let q = WritePacket::new(0x03e1, vec![1; 15]);
    assert_eq!(q.header(), vec![0, 0x20, 0x03, 0xe1, 15]);
    let full = WritePacket::new(0, vec![5; 255]);
    assert_eq!(full.header(), vec![0, 0x20, 0, 0, 255]);
}

#[test]
fn send_range_of_600_bytes_makes_three_packets() {
    let data: Vec<u8> = (0..600u32).map(|i| (i % 251) as u8).collect();
    let (packets, outcome) = run(RangeSender::new(100, data.clone()), None);
    assert_eq!(outcome, Ok(()));
    let shape: Vec<(u16, usize)> = packets.iter().map(|(a, _, p)| (*a, p.len())).collect();
    assert_eq!(shape, vec![(100, 255), (355, 255), (610, 90)]);
    assert_eq!(packets[0].2[..], data[0..255]);
    assert_eq!(packets[1].2[..], data[255..510]);
    assert_eq!(packets[2].2[..], data[510..600]);
    assert_eq!(packets[1].1, vec![0, 0x20, 0x01, 0x63, 255]);
    assert_eq!(packets[2].1, vec![0, 0x20, 0x02, 0x62, 90]);
}

#[test]
fn send_range_exact_multiple_and_empty() {
    let (packets, outcome) = run(RangeSender::new(0, vec![1; 510]), None);
    assert_eq!(outcome, Ok(()));
    assert_eq!(packets.iter().map(|(a, _, p)| (*a, p.len())).collect::<Vec<_>>(), vec![(0, 255), (255, 255)]);
    let (packets, outcome) = run(RangeSender::new(7, Vec::new()), None);
    assert_eq!(outcome, Ok(()));
    assert!(packets.is_empty());
    let (packets, _) = run(RangeSender::new(1007, vec![3]), None);
    assert_eq!(packets, vec![(1007, vec![0, 0x20, 0x03, 0xef, 1], vec![3])]);
}

#[test]
fn fill_makes_four_packets_of_the_value() {
    let (packets, outcome) = run(RangeSender::fill(0xAA), None);
    assert_eq!(outcome, Ok(()));
    assert_eq!(packets.len(), 4);
    assert_eq!(packets.iter().map(|(a, _, _)| *a).collect::<Vec<_>>(), vec![0, 255, 510, 765]);
    assert!(packets.iter().all(|(_, _, p)| p.iter().all(|b| *b == 0xAA)));
    assert_eq!(packets.iter().map(|(_, _, p)| p.len()).sum::<usize>(), 1008);
    assert_eq!(packets[3].2.len(), 243);
}

#[test]
fn frame_is_sent_from_address_zero() {
    let mut img = Image::new();
    img.draw_circle(72, 63, 12);
    let frame = Frame::encode(&img);
    let bytes = frame.as_bytes().clone();
    let (packets, outcome) = run(RangeSender::for_frame(frame), None);
    assert_eq!(outcome, Ok(()));
    let mut joined = Vec::new();
    for (_, _, p) in &packets {
        joined.extend_from_slice(p);
    }
    assert_eq!(joined, bytes);
    assert_eq!(packets.len(), 4);
}

#[test]
fn failure_aborts_the_run_with_its_error() {
    let (packets, outcome) = run(RangeSender::fill(0), Some(1));
    assert_eq!(packets.len(), 2);
    assert_eq!(outcome, Err("timed out on packet 1".to_string()));
    let (packets, outcome) = run(RangeSender::fill(0), Some(0));
    assert_eq!(packets.len(), 1);
    assert_eq!(outcome, Err("timed out on packet 0".to_string()));
}

#[test]
fn step_passes_an_error_through_unchanged() {
    match RangeSender::fill(1).step::<u32>(Err(77)) {
        Step::Abort(e) => assert_eq!(e, 77),
        _ => panic!("a failure must abort"),
    }
}

// The radius is fixed at a tenth of the height, so the case where the two
// boundaries of an axis overlap (a radius of half a dimension or more) cannot
// arise and is left unexercised.
#[test]
fn animation_starts_in_the_centre() {
    let a = Animation::new();
    assert_eq!((a.cx(), a.cy(), a.dx(), a.dy()), (72, 63, 1, 1));
    assert_eq!(RADIUS, 12);
    let img = a.canvas();
    let mut expected = Image::new();
    expected.draw_circle(72, 63, 12);
    assert_eq!(lit_pixels(&img), lit_pixels(&expected));
}

#[test]
fn animation_reverses_at_the_boundaries() {
    let mut a = Animation::new();
    for _ in 0..59 {
        a.advance();
        assert_eq!(a.dx(), 1);
    }
    a.advance();
    assert_eq!((a.cx(), a.dx()), (132, -1));
    for _ in 0..119 {
        a.advance();
        assert_eq!(a.dx(), -1);
    }
    a.advance();
    assert_eq!((a.cx(), a.dx()), (12, 1));
}

#[test]
fn animation_is_periodic_and_stays_in_bounds() {
    let mut a = Animation::new();
    let mut xs = Vec::new();
    for _ in 0..480 {
        assert!(a.cx() >= 12 && a.cx() <= 132);
        assert!(a.cy() >= 12 && a.cy() <= 114);
        xs.push(a.cx());
        a.advance();
    }
    for t in 0..240 {
        assert_eq!(xs[t], xs[t + 240]);
    }
    let mut b = Animation::new();
    for _ in 0..204 {
        b.advance();
    }
    assert_eq!((b.cy(), b.dy()), (63, 1));
}

#[test]
fn animation_vertical_reversal() {
    let mut a = Animation::new();
    for _ in 0..51 {
        a.advance();
    }
    assert_eq!((a.cy(), a.dy()), (114, -1));
    for _ in 0..102 {
        a.advance();
    }
    assert_eq!((a.cy(), a.dy()), (12, 1));
}
