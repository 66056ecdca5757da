use ray_tracer::color::hex_channels;
use ray_tracer::input::{classify_lead_byte, command_for_key, Command, Direction, LeadByte};
use ray_tracer::vector::Vec3;
use ray_tracer::view_mode::ViewMode;

#[test]
fn lead_bytes() {
    assert_eq!(classify_lead_byte(b'a'), LeadByte::Ascii(b'a'));
    assert_eq!(classify_lead_byte(0x00), LeadByte::Ascii(0));
    assert_eq!(classify_lead_byte(0x7f), LeadByte::Ascii(0x7f));
    assert_eq!(classify_lead_byte(0x80), LeadByte::Invalid);
    assert_eq!(classify_lead_byte(0xbf), LeadByte::Invalid);
    assert_eq!(classify_lead_byte(0xc3), LeadByte::Skip(1));
    assert_eq!(classify_lead_byte(0xe2), LeadByte::Skip(2));
    assert_eq!(classify_lead_byte(0xf0), LeadByte::Skip(3));
    assert_eq!(classify_lead_byte(0xf7), LeadByte::Skip(3));
    assert_eq!(classify_lead_byte(0xf8), LeadByte::Invalid);
    assert_eq!(classify_lead_byte(0xff), LeadByte::Invalid);
    let bytes = "é€😀".as_bytes();
    assert_eq!(classify_lead_byte(bytes[0]), LeadByte::Skip(1));
    assert_eq!(classify_lead_byte(bytes[2]), LeadByte::Skip(2));
    assert_eq!(classify_lead_byte(bytes[5]), LeadByte::Skip(3));
}

#[test]
fn keys() {
    assert_eq!(command_for_key(b'1'), Some(Command::SetViewMode(ViewMode::Color)));
    assert_eq!(command_for_key(b'2'), Some(Command::SetViewMode(ViewMode::Normal)));
    assert_eq!(command_for_key(b'3'), Some(Command::SetViewMode(ViewMode::Depth)));
    assert_eq!(command_for_key(b'4'), Some(Command::SetViewMode(ViewMode::Complexity)));
    assert_eq!(command_for_key(b'q'), Some(Command::Quit));
    assert_eq!(command_for_key(0x1b), Some(Command::Quit));
    assert_eq!(command_for_key(b'h'), Some(Command::Accelerate(Direction::Left)));
    assert_eq!(command_for_key(b'j'), Some(Command::Accelerate(Direction::Down)));
    assert_eq!(command_for_key(b'k'), Some(Command::Accelerate(Direction::Up)));
    assert_eq!(command_for_key(b'l'), Some(Command::Accelerate(Direction::Right)));
    assert_eq!(command_for_key(b'5'), None);
    assert_eq!(command_for_key(b'Q'), None);
}

#[test]
fn view_mode_names() {
    assert_eq!(ViewMode::Color.name(), "color");
    assert_eq!(ViewMode::Normal.name(), "normal");
    assert_eq!(ViewMode::Depth.name(), "depth");
    assert_eq!(ViewMode::Complexity.name(), "complexity");
    assert_eq!(ViewMode::default(), ViewMode::Color);
    assert!(ViewMode::Normal.is_single_sample());
    assert!(ViewMode::Depth.is_single_sample());
    assert!(!ViewMode::Color.is_single_sample());
    assert!(!ViewMode::Complexity.is_single_sample());
}

#[test]
fn hex_colors() {
    assert_eq!(hex_channels(0xeef5ff), Vec3 { x: 0xee, y: 0xf5, z: 0xff });
    assert_eq!(hex_channels(0x176b87), Vec3 { x: 0x17, y: 0x6b, z: 0x87 });
    assert_eq!(hex_channels(0x000000), Vec3 { x: 0, y: 0, z: 0 });
    assert_eq!(hex_channels(0xff7f7f), Vec3 { x: 0xff, y: 0x7f, z: 0x7f });
    assert_eq!(hex_channels(0xab_0000ff), Vec3 { x: 0, y: 0, z: 0xff });
}
