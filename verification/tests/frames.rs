use tokio_socketcan_bcm::{CANFrame, ConstructionError};

#[test]
fn standard_frame() {
    let frame = CANFrame::new(0x123, &[1, 2, 3], false, false).unwrap();
    assert_eq!(frame.id, 0x123);
    assert_eq!(frame.data_len, 3);
    assert_eq!(frame.data, [1, 2, 3, 0, 0, 0, 0, 0]);
    assert_eq!((frame.pad, frame.res0, frame.res1), (0, 0, 0));
}

#[test]
fn large_identifiers_are_extended() {
    assert_eq!(CANFrame::new(0x7FF, &[], false, false).unwrap().id, 0x7FF);
    assert_eq!(CANFrame::new(0x800, &[], false, false).unwrap().id, 0x8000_0800);
    assert_eq!(
        CANFrame::new(0x1FFF_FFFF, &[], false, false).unwrap().id,
        0x9FFF_FFFF
    );
}

#[test]
fn flags_are_set_as_asked() {
    assert_eq!(CANFrame::new(0x1, &[], true, false).unwrap().id, 0x4000_0001);
    assert_eq!(CANFrame::new(0x1, &[], false, true).unwrap().id, 0x2000_0001);
    assert_eq!(CANFrame::new(0x800, &[], true, true).unwrap().id, 0xE000_0800);
}

#[test]
fn eight_bytes_at_most() {
    let frame = CANFrame::new(0, &[9; 8], false, false).unwrap();
    assert_eq!(frame.data_len, 8);
    assert_eq!(frame.data, [9; 8]);
    assert_eq!(
        CANFrame::new(0, &[9; 9], false, false),
        Err(ConstructionError::TooMuchData)
    );
}

#[test]
fn identifier_of_29_bits_at_most() {
    assert_eq!(
        CANFrame::new(0x2000_0000, &[], false, false),
        Err(ConstructionError::IDTooLarge)
    );
}

#[test]
fn too_much_data_is_reported_first() {
    assert_eq!(
        CANFrame::new(0x2000_0000, &[0; 9], false, false),
        Err(ConstructionError::TooMuchData)
    );
}

#[test]
fn empty_frame() {
    assert_eq!(
        CANFrame::empty(),
        CANFrame {
            id: 0,
            data_len: 0,
            pad: 0,
            res0: 0,
            res1: 0,
            data: [0; 8]
        }
    );
}

#[test]
fn frame_has_the_size_of_the_kernel_structure() {
    assert_eq!(
        tokio_socketcan_bcm::frame::FRAME_SIZE,
        std::mem::size_of::<socketcan::CANFrame>()
    );
}
