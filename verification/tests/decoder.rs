use neli_wifi::attr::{
    decode_bytes, decode_i32, decode_u32, decode_u64, encode_i32, Attribute, DecodeError,
    ATTR_CENTER_FREQ1, ATTR_CENTER_FREQ2, ATTR_CHANNEL_WIDTH, ATTR_IFINDEX, ATTR_IFNAME,
    ATTR_IFTYPE, ATTR_MAC, ATTR_SSID, ATTR_WDEV, ATTR_WIPHY, ATTR_WIPHY_CHANNEL_TYPE,
    ATTR_WIPHY_FREQ, ATTR_WIPHY_TX_POWER_LEVEL,
};
use neli_wifi::interface::Interface;
use neli_wifi::record::Record;

fn new_attr(t: u16, d: Vec<u8>) -> Attribute {
    Attribute { tag: t, payload: d }
}

fn sample() -> Vec<Attribute> {
    vec![
        new_attr(ATTR_IFINDEX, vec![3, 0, 0, 0]),
        new_attr(ATTR_IFNAME, vec![119, 108, 112, 53, 115, 48]),
        new_attr(ATTR_WIPHY, vec![0, 0, 0, 0]),
        new_attr(ATTR_IFTYPE, vec![2, 0, 0, 0]),
        new_attr(ATTR_WDEV, vec![1, 0, 0, 0, 0, 0, 0, 0]),
        new_attr(ATTR_MAC, vec![255, 255, 255, 255, 255, 255]),
        new_attr(ATTR_WIPHY_FREQ, vec![108, 9, 0, 0]),
        new_attr(ATTR_CHANNEL_WIDTH, vec![1, 0, 0, 0]),
        new_attr(ATTR_WIPHY_TX_POWER_LEVEL, vec![164, 6, 0, 0]),
        new_attr(ATTR_SSID, vec![101, 100, 117, 114, 111, 97, 109]),
    ]
}

#[test]
fn test_parser() {
    let handler = sample();

    let interface: Interface = Interface::try_from(&handler).unwrap();
    let expected_interface = Interface {
        iftype: Some(2),
        index: Some(3),
        ssid: Some(vec![101, 100, 117, 114, 111, 97, 109]),
        mac: Some(vec![255, 255, 255, 255, 255, 255]),
        name: Some(vec![119, 108, 112, 53, 115, 48]),
        frequency: Some(u32::from_le_bytes([108, 9, 0, 0])),
        channel_type: None,
        channel: Some(u32::from_le_bytes([1, 0, 0, 0])),
        center_freq1: None,
        center_freq2: None,
        power: Some(u32::from_le_bytes([164, 6, 0, 0])),
        phy: Some(u32::from_le_bytes([0, 0, 0, 0])),
        device: Some(u64::from_le_bytes([1, 0, 0, 0, 0, 0, 0, 0])),
    };

    assert_eq!(interface, expected_interface)
}

#[test]
fn parser_gives_exact_numbers() {
    let interface = Interface::try_from(&sample()).unwrap();
    assert_eq!(interface.frequency, Some(2412));
    assert_eq!(interface.power, Some(1700));
    assert_eq!(interface.index, Some(3));
    assert_eq!(interface.device, Some(1));
    assert_eq!(interface.name, Some(b"wlp5s0".to_vec()));
    assert_eq!(interface.ssid, Some(b"eduroam".to_vec()));
}

#[test]
fn every_field_is_read_from_its_own_tag() {
    let attrs = vec![
        new_attr(ATTR_IFTYPE, vec![1, 0, 0, 0]),
        new_attr(ATTR_IFINDEX, vec![2, 0, 0, 0]),
        new_attr(ATTR_SSID, vec![3]),
        new_attr(ATTR_MAC, vec![4]),
        new_attr(ATTR_IFNAME, vec![5]),
        new_attr(ATTR_WIPHY_FREQ, vec![6, 0, 0, 0]),
        new_attr(ATTR_WIPHY_CHANNEL_TYPE, vec![7, 0, 0, 0]),
        new_attr(ATTR_CHANNEL_WIDTH, vec![8, 0, 0, 0]),
        new_attr(ATTR_CENTER_FREQ1, vec![9, 0, 0, 0]),
        new_attr(ATTR_CENTER_FREQ2, vec![10, 0, 0, 0]),
        new_attr(ATTR_WIPHY_TX_POWER_LEVEL, vec![11, 0, 0, 0]),
        new_attr(ATTR_WIPHY, vec![12, 0, 0, 0]),
        new_attr(ATTR_WDEV, vec![13, 0, 0, 0, 0, 0, 0, 0]),
    ];
    let expected = Interface {
        iftype: Some(1),
        index: Some(2),
        ssid: Some(vec![3]),
        mac: Some(vec![4]),
        name: Some(vec![5]),
        frequency: Some(6),
        channel_type: Some(7),
        channel: Some(8),
        center_freq1: Some(9),
        center_freq2: Some(10),
        power: Some(11),
        phy: Some(12),
        device: Some(13),
    };
    assert_eq!(Interface::try_from(&attrs), Ok(expected));
}

#[test]
fn tag_numbers_are_those_of_the_protocol() {
    assert_eq!(ATTR_WIPHY, 1);
    assert_eq!(ATTR_IFINDEX, 3);
    assert_eq!(ATTR_IFNAME, 4);
    assert_eq!(ATTR_IFTYPE, 5);
    assert_eq!(ATTR_MAC, 6);
    assert_eq!(ATTR_WIPHY_FREQ, 38);
    assert_eq!(ATTR_WIPHY_CHANNEL_TYPE, 39);
    assert_eq!(ATTR_SSID, 52);
    assert_eq!(ATTR_WIPHY_TX_POWER_LEVEL, 98);
    assert_eq!(ATTR_WDEV, 153);
    assert_eq!(ATTR_CHANNEL_WIDTH, 159);
    assert_eq!(ATTR_CENTER_FREQ1, 160);
    assert_eq!(ATTR_CENTER_FREQ2, 161);
}

#[test]
fn unknown_tags_are_ignored() {
    let mut noisy = Vec::new();
    let mut unknown: u16 = 200;
    for attr in sample() {
        noisy.push(new_attr(unknown, vec![1, 2, 3]));
        noisy.push(attr);
        unknown += 1;
    }
    noisy.push(new_attr(2, vec![]));
    noisy.push(new_attr(0, vec![9; 40]));
    noisy.push(new_attr(u16::MAX, vec![0]));
    assert_eq!(Interface::try_from(&noisy), Interface::try_from(&sample()));
    assert!(Interface::try_from(&noisy).is_ok());
}

#[test]
fn only_unknown_tags_give_the_absent_record() {
    let attrs = vec![new_attr(2, vec![1]), new_attr(7, vec![1, 2, 3, 4, 5])];
    assert_eq!(Interface::try_from(&attrs), Ok(Interface::default()));
}

#[test]
fn last_write_wins() {
    let attrs = vec![
        new_attr(ATTR_WIPHY_FREQ, vec![108, 9, 0, 0]),
        new_attr(ATTR_SSID, vec![1, 2, 3]),
        new_attr(ATTR_IFINDEX, vec![1, 0, 0, 0]),
        new_attr(ATTR_WIPHY_FREQ, vec![60, 20, 0, 0]),
        new_attr(ATTR_SSID, vec![4]),
        new_attr(ATTR_IFINDEX, vec![7, 0, 0, 0]),
    ];
    let interface = Interface::try_from(&attrs).unwrap();
    assert_eq!(interface.frequency, Some(5180));
    assert_eq!(interface.ssid, Some(vec![4]));
    assert_eq!(interface.index, Some(7));
}

#[test]
fn absent_tags_give_absent_fields() {
    let interface = Interface::try_from(&vec![]).unwrap();
    assert_eq!(interface, Interface::default());
    assert_eq!(interface, Interface::absent());
    assert_eq!(interface.iftype, None);
    assert_eq!(interface.index, None);
    assert_eq!(interface.ssid, None);
    assert_eq!(interface.mac, None);
    assert_eq!(interface.name, None);
    assert_eq!(interface.frequency, None);
    assert_eq!(interface.channel_type, None);
    assert_eq!(interface.channel, None);
    assert_eq!(interface.center_freq1, None);
    assert_eq!(interface.center_freq2, None);
    assert_eq!(interface.power, None);
    assert_eq!(interface.phy, None);
    assert_eq!(interface.device, None);

    let only_index = Interface::try_from(&vec![new_attr(ATTR_IFINDEX, vec![0, 0, 0, 0])]).unwrap();
    assert_eq!(only_index.index, Some(0));
    assert_eq!(only_index.phy, None);
    assert_eq!(only_index.iftype, None);
}

#[test]
fn present_zero_differs_from_absent() {
    let zero = Interface::try_from(&vec![new_attr(ATTR_WIPHY, vec![0, 0, 0, 0])]).unwrap();
    assert_eq!(zero.phy, Some(0));
    assert_ne!(zero, Interface::default());
    let empty = Interface::try_from(&vec![new_attr(ATTR_SSID, vec![])]).unwrap();
    assert_eq!(empty.ssid, Some(vec![]));
    assert_ne!(empty, Interface::default());
}

#[test]
fn wrong_length_is_malformed() {
    let four = [
        ATTR_IFINDEX,
        ATTR_IFTYPE,
        ATTR_WIPHY_FREQ,
        ATTR_WIPHY_CHANNEL_TYPE,
        ATTR_CHANNEL_WIDTH,
        ATTR_CENTER_FREQ1,
        ATTR_CENTER_FREQ2,
        ATTR_WIPHY_TX_POWER_LEVEL,
        ATTR_WIPHY,
    ];
    for tag in four {
        for len in [0usize, 1, 2, 3, 5, 8] {
            let attrs = vec![new_attr(tag, vec![1; len])];
            assert_eq!(
                Interface::try_from(&attrs),
                Err(DecodeError::MalformedAttribute { tag, len })
            );
        }
        assert!(Interface::try_from(&vec![new_attr(tag, vec![1; 4])]).is_ok());
    }
    for len in [0usize, 4, 7, 9, 16] {
        let attrs = vec![new_attr(ATTR_WDEV, vec![1; len])];
        assert_eq!(
            Interface::try_from(&attrs),
            Err(DecodeError::MalformedAttribute { tag: ATTR_WDEV, len })
        );
    }
}

#[test]
fn malformed_attribute_fails_wherever_it_stands() {
    let mut attrs = sample();
    attrs.insert(4, new_attr(ATTR_CENTER_FREQ1, vec![1, 2]));
    attrs.push(new_attr(ATTR_WIPHY, vec![1, 2, 3]));
    assert_eq!(
        Interface::try_from(&attrs),
        Err(DecodeError::MalformedAttribute { tag: ATTR_CENTER_FREQ1, len: 2 })
    );
}

#[test]
fn a_later_good_entry_does_not_mend_a_malformed_one() {
    let attrs = vec![
        new_attr(ATTR_WIPHY_FREQ, vec![108, 9, 0, 0, 0]),
        new_attr(ATTR_WIPHY_FREQ, vec![108, 9, 0, 0]),
    ];
    assert_eq!(
        Interface::try_from(&attrs),
        Err(DecodeError::MalformedAttribute { tag: ATTR_WIPHY_FREQ, len: 5 })
    );
}

#[test]
fn byte_fields_are_kept_verbatim() {
    let attrs = vec![
        new_attr(ATTR_IFNAME, vec![119, 108, 97, 110, 48, 0]),
        new_attr(ATTR_SSID, vec![0xff, 0xfe, 0, 0, 0x80]),
        new_attr(ATTR_MAC, vec![1, 2, 3, 4, 5, 6, 7, 8]),
    ];
    let interface = Interface::try_from(&attrs).unwrap();
    assert_eq!(interface.name, Some(vec![119, 108, 97, 110, 48, 0]));
    assert_eq!(interface.ssid, Some(vec![0xff, 0xfe, 0, 0, 0x80]));
    assert_eq!(interface.mac, Some(vec![1, 2, 3, 4, 5, 6, 7, 8]));
}

#[test]
fn decode_bytes_copies_the_payload() {
    assert_eq!(decode_bytes(&vec![]), Vec::<u8>::new());
    assert_eq!(decode_bytes(&vec![0]), vec![0]);
    let long: Vec<u8> = (0..=255).collect();
    assert_eq!(decode_bytes(&long), long);
}

#[test]
fn decode_u32_is_little_endian() {
    assert_eq!(decode_u32(1, &vec![108, 9, 0, 0]), Ok(2412));
    assert_eq!(decode_u32(1, &vec![1, 2, 3, 4]), Ok(0x0403_0201));
    assert_eq!(decode_u32(1, &vec![0, 0, 0, 0]), Ok(0));
    assert_eq!(decode_u32(1, &vec![255, 255, 255, 255]), Ok(u32::MAX));
    assert_eq!(
        decode_u32(9, &vec![1, 2, 3]),
        Err(DecodeError::MalformedAttribute { tag: 9, len: 3 })
    );
    assert_eq!(
        decode_u32(9, &vec![1, 2, 3, 4, 5]),
        Err(DecodeError::MalformedAttribute { tag: 9, len: 5 })
    );
}

#[test]
fn decode_i32_is_twos_complement() {
    assert_eq!(decode_i32(3, &vec![3, 0, 0, 0]), Ok(3));
    assert_eq!(decode_i32(3, &vec![255, 255, 255, 255]), Ok(-1));
    assert_eq!(decode_i32(3, &vec![0, 0, 0, 128]), Ok(i32::MIN));
    assert_eq!(decode_i32(3, &vec![255, 255, 255, 127]), Ok(i32::MAX));
    assert_eq!(decode_i32(3, &vec![0x2e, 0xfb, 0xff, 0xff]), Ok(-1234));
    assert_eq!(decode_i32(3, &vec![]), Err(DecodeError::MalformedAttribute { tag: 3, len: 0 }));
}

#[test]
fn decode_u64_is_little_endian() {
    assert_eq!(decode_u64(153, &vec![1, 0, 0, 0, 0, 0, 0, 0]), Ok(1));
    assert_eq!(decode_u64(153, &vec![1, 2, 3, 4, 5, 6, 7, 8]), Ok(0x0807_0605_0403_0201));
    assert_eq!(decode_u64(153, &vec![255; 8]), Ok(u64::MAX));
    assert_eq!(decode_u64(153, &vec![0, 0, 0, 0, 1, 0, 0, 0]), Ok(1 << 32));
    assert_eq!(
        decode_u64(153, &vec![1, 0, 0, 0]),
        Err(DecodeError::MalformedAttribute { tag: 153, len: 4 })
    );
}

#[test]
fn encode_i32_is_little_endian() {
    assert_eq!(encode_i32(3), vec![3, 0, 0, 0]);
    assert_eq!(encode_i32(0), vec![0, 0, 0, 0]);
    assert_eq!(encode_i32(-1), vec![255, 255, 255, 255]);
    assert_eq!(encode_i32(i32::MIN), vec![0, 0, 0, 128]);
    assert_eq!(encode_i32(i32::MAX), vec![255, 255, 255, 127]);
    assert_eq!(encode_i32(0x0102_0304), vec![4, 3, 2, 1]);
}

#[test]
fn encode_then_decode_gives_the_integer() {
    for x in [0, 1, -1, 3, 255, 256, -256, 65536, 1 << 24, i32::MIN, i32::MAX, -1234567] {
        assert_eq!(decode_i32(ATTR_IFINDEX, &encode_i32(x)), Ok(x));
        assert_eq!(encode_i32(x), x.to_le_bytes().to_vec());
    }
}

#[test]
fn record_decode_is_the_interface_decoder() {
    assert_eq!(<Interface as Record>::decode(&sample()), Interface::try_from(&sample()));
}
