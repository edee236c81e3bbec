use roxy_can::can::frame::{dlc2len, len2dlc, CanFrame, Direction, FrameFlags};

fn frame(len: u8, flags: FrameFlags) -> CanFrame {
    CanFrame {
        t_us: 0,
        channel: 0,
        id: 0x100,
        extended: false,
        len,
        data: [0xAA; 64],
        dir: Direction::Rx,
        flags,
    }
}

#[test]
fn dlc_code_length_round_trip() {
    // Classic codes are identity.
    for c in 0..=8u8 {
        assert_eq!(dlc2len(c), c);
        assert_eq!(len2dlc(c), c);
    }
    // FD codes map to the fixed ladder.
    assert_eq!(dlc2len(9), 12);
    assert_eq!(dlc2len(15), 64);
    // len2dlc rounds up to the next valid length code.
    assert_eq!(len2dlc(12), 9);
    assert_eq!(len2dlc(13), 10);
    assert_eq!(len2dlc(64), 15);
    for len in 0..=64u8 {
        assert!(dlc2len(len2dlc(len)) >= len);
    }
}

#[test]
fn payload_tracks_len() {
    let mut f = frame(3, FrameFlags::none());
    assert_eq!(f.payload(), &[0xAA, 0xAA, 0xAA]);
    assert_eq!(f.dlc_code(), 3);
    f.flags = FrameFlags::fd().union(FrameFlags::brs());
    assert!(f.is_fd());
    assert!(f.brs());
    assert!(!f.esi());
}

#[test]
fn canframe_is_88_bytes() {
    assert_eq!(std::mem::size_of::<CanFrame>(), 88);
}

#[test]
fn codes_past_the_ladder_mean_the_longest_frame() {
    assert_eq!(dlc2len(200), 64);
    assert_eq!(len2dlc(9), 9);
    assert_eq!(len2dlc(65), 15);
}

#[test]
fn error_and_remote_frames_carry_no_payload() {
    let e = frame(5, FrameFlags::error());
    assert!(e.is_error());
    assert!(e.payload().is_empty());
    let r = frame(5, FrameFlags::rtr());
    assert!(r.is_remote());
    assert!(r.payload().is_empty());
}

#[test]
fn the_tag_names_what_is_special_about_a_frame() {
    assert_eq!(FrameFlags::none().tag(), "");
    assert_eq!(FrameFlags::fd().tag(), "FD");
    assert_eq!(FrameFlags::fd().union(FrameFlags::brs()).tag(), "FD·B");
    assert_eq!(FrameFlags::fd().union(FrameFlags::esi()).tag(), "FD·E");
    let both = FrameFlags::fd().union(FrameFlags::brs()).union(FrameFlags::esi());
    assert_eq!(both.tag(), "FD·BE");
    assert_eq!(FrameFlags::rtr().tag(), "RTR");
    assert_eq!(FrameFlags::error().union(FrameFlags::fd()).tag(), "ERR");
    assert_eq!(FrameFlags::default().tag(), "");
}
