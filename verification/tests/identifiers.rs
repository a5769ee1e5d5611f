use tokio_socketcan_bcm::{ExtendedId, FrameFlags, Id, StandardId};

fn standard(raw: u16) -> Id {
    Id::Standard(StandardId::new(raw).unwrap())
}

fn extended(raw: u32) -> Id {
    Id::Extended(ExtendedId::new(raw).unwrap())
}

#[test]
fn standard_id_range() {
    assert_eq!(StandardId::new(0).unwrap().as_raw(), 0);
    assert_eq!(StandardId::new(0x123).unwrap().as_raw(), 0x123);
    assert_eq!(StandardId::new(0x7FF).unwrap().as_raw(), 0x7FF);
    assert_eq!(StandardId::new(0x800), None);
    assert_eq!(StandardId::new(0xFFFF), None);
}

#[test]
fn extended_id_range() {
    assert_eq!(ExtendedId::new(0).unwrap().as_raw(), 0);
    assert_eq!(ExtendedId::new(0x1FFF_FFFF).unwrap().as_raw(), 0x1FFF_FFFF);
    assert_eq!(ExtendedId::new(0x2000_0000), None);
    assert_eq!(ExtendedId::new(0xFFFF_FFFF), None);
}

#[test]
fn identifiers_agree_with_embedded_can() {
    let mut raw: u32 = 0;
    while raw <= 0xFFFF {
        let ours = StandardId::new(raw as u16).map(|id| id.as_raw());
        let theirs = embedded_can::StandardId::new(raw as u16).map(|id| id.as_raw());
        assert_eq!(ours, theirs);
        raw += 1;
    }
}

#[test]
fn word_of_a_standard_id_is_its_number() {
    assert_eq!(standard(0x123).can_id(), 0x123);
    assert_eq!(standard(0x7FF).can_id(), 0x7FF);
}

#[test]
fn word_of_an_extended_id_has_the_topmost_bit() {
    assert_eq!(extended(0x123).can_id(), 0x8000_0123);
    assert_eq!(extended(0x1FFF_FFFF).can_id(), 0x9FFF_FFFF);
}

#[test]
fn formats_never_meet() {
    assert_ne!(standard(0x123).can_id(), extended(0x123).can_id());
    assert_ne!(standard(0).can_id(), extended(0).can_id());
}

#[test]
fn flag_bits() {
    assert_eq!(FrameFlags::eff_flag().bits(), 0x8000_0000);
    assert_eq!(FrameFlags::rtr_flag().bits(), 0x4000_0000);
    assert_eq!(FrameFlags::err_flag().bits(), 0x2000_0000);
}
