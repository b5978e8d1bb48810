use pch_easy_ipv6::ra::{
    parse_prefix_information, router_advert_in_ipv6, scan_prefix_option, PrefixOptionScan,
};
use pnet::packet::icmpv6::ndp::{NdpOptionTypes, RouterAdvertPacket};
use pnet::packet::Packet;

/// A Prefix Information payload for 2001:db8:1234:5600::/56 (with stray
/// bits after the prefix), flags L and A, lifetimes 86400 and 14400.
fn prefix_payload() -> Vec<u8> {
    let mut p = vec![56u8, 0xc0];
    p.extend_from_slice(&86400u32.to_be_bytes());
    p.extend_from_slice(&14400u32.to_be_bytes());
    p.extend_from_slice(&[0, 0, 0, 0]);
    for w in [0x2001u16, 0x0db8, 0x1234, 0x56ff, 0xffff, 0, 0, 1] {
        p.extend_from_slice(&w.to_be_bytes());
    }
    p
}

fn router_advert(options: &[u8]) -> Vec<u8> {
    let mut m = vec![134u8, 0, 0, 0, 64, 0, 0x07, 0x08, 0, 0, 0, 0, 0, 0, 0, 0];
    m.extend_from_slice(options);
    m
}

fn source_link_layer_option() -> Vec<u8> {
    vec![1, 1, 0x02, 0x11, 0x22, 0x33, 0x44, 0x55]
}

fn prefix_option() -> Vec<u8> {
    let mut o = vec![3u8, 4];
    o.extend_from_slice(&prefix_payload());
    o
}

fn pnet_prefix_payload(message: &[u8]) -> Option<Option<Vec<u8>>> {
    RouterAdvertPacket::new(message).map(|ra| {
        ra.get_options_iter()
            .find(|o| o.get_option_type() == NdpOptionTypes::PrefixInformation)
            .map(|o| o.payload().to_vec())
    })
}

#[test]
fn parse_prefix_information_fields() {
    let info = parse_prefix_information(&prefix_payload());
    assert_eq!(info.prefix_length, 56);
    assert!(info.on_link_flag);
    assert!(info.autonomous_address_configuration_flag);
    assert_eq!(info.valid_lifetime, 86400);
    assert_eq!(info.preferred_lifetime, 14400);
    assert_eq!(info.prefix, [0x2001, 0x0db8, 0x1234, 0x5600, 0, 0, 0, 0]);
}

#[test]
fn parse_prefix_information_flags_apart() {
    let mut p = prefix_payload();
    p[1] = 0x40;
    let info = parse_prefix_information(&p);
    assert!(!info.on_link_flag);
    assert!(info.autonomous_address_configuration_flag);
    p[1] = 0x80;
    p[0] = 128;
    let info = parse_prefix_information(&p);
    assert!(info.on_link_flag);
    assert!(!info.autonomous_address_configuration_flag);
    assert_eq!(info.prefix, [0x2001, 0x0db8, 0x1234, 0x56ff, 0xffff, 0, 0, 1]);
}

#[test]
fn scan_finds_the_prefix_option_after_others() {
    let mut options = source_link_layer_option();
    options.extend(prefix_option());
    let message = router_advert(&options);
    match scan_prefix_option(&message) {
        PrefixOptionScan::Found(p) => assert_eq!(p, prefix_payload()),
        _ => panic!("expected the prefix option"),
    }
    assert_eq!(pnet_prefix_payload(&message), Some(Some(prefix_payload())));
}

#[test]
fn scan_short_message_is_not_an_advert() {
    let message = vec![134u8, 0, 0, 0, 64, 0, 0, 0, 0, 0, 0, 0, 0, 0, 0];
    assert!(matches!(scan_prefix_option(&message), PrefixOptionScan::NotRouterAdvert));
    assert_eq!(pnet_prefix_payload(&message), None);
}

#[test]
fn scan_without_prefix_option() {
    let message = router_advert(&source_link_layer_option());
    assert!(matches!(scan_prefix_option(&message), PrefixOptionScan::NoPrefixOption));
    assert_eq!(pnet_prefix_payload(&message), Some(None));
    let bare = router_advert(&[]);
    assert!(matches!(scan_prefix_option(&bare), PrefixOptionScan::NoPrefixOption));
    let dangling = router_advert(&[3]);
    assert!(matches!(scan_prefix_option(&dangling), PrefixOptionScan::NoPrefixOption));
    assert_eq!(pnet_prefix_payload(&dangling), Some(None));
}

#[test]
fn scan_truncated_prefix_option() {
    let options = prefix_option();
    let message = router_advert(&options[..20]);
    match scan_prefix_option(&message) {
        PrefixOptionScan::Found(p) => assert_eq!(p, options[2..20].to_vec()),
        _ => panic!("expected a truncated payload"),
    }
    assert_eq!(pnet_prefix_payload(&message), Some(Some(options[2..20].to_vec())));
}

#[test]
fn scan_zero_length_option_is_stepped_over() {
    let mut options = vec![9u8, 0];
    options.extend(prefix_option());
    let message = router_advert(&options);
    match scan_prefix_option(&message) {
        PrefixOptionScan::Found(p) => assert_eq!(p, prefix_payload()),
        _ => panic!("expected the prefix option"),
    }
    assert_eq!(pnet_prefix_payload(&message), Some(Some(prefix_payload())));
}

#[test]
fn scan_long_option_before_prefix() {
    let mut options = vec![9u8, 32];
    options.extend(vec![0u8; 254]);
    options.extend(prefix_option());
    let message = router_advert(&options);
    assert!(matches!(scan_prefix_option(&message), PrefixOptionScan::LengthOverflow));
}

#[test]
fn scan_long_option_after_prefix() {
    let mut options = prefix_option();
    options.extend(vec![9u8, 40]);
    options.extend(vec![0u8; 318]);
    let message = router_advert(&options);
    assert!(matches!(scan_prefix_option(&message), PrefixOptionScan::LengthOverflow));
}

#[test]
fn scan_takes_the_first_of_two_prefix_options() {
    let mut second = prefix_option();
    second[2] = 64;
    let mut options = prefix_option();
    options.extend(second);
    let message = router_advert(&options);
    match scan_prefix_option(&message) {
        PrefixOptionScan::Found(p) => assert_eq!(p, prefix_payload()),
        _ => panic!("expected the first prefix option"),
    }
}

fn ipv6_packet(next_header: u8, payload: &[u8], payload_length: u16) -> Vec<u8> {
    let mut p = vec![0x60u8, 0, 0, 0];
    p.extend_from_slice(&payload_length.to_be_bytes());
    p.push(next_header);
    p.push(255);
    p.extend_from_slice(&[0xfe, 0x80, 0, 0, 0, 0, 0, 0, 0, 0, 0, 0, 0, 0, 0, 1]);
    p.extend_from_slice(&[0xff, 0x02, 0, 0, 0, 0, 0, 0, 0, 0, 0, 0, 0, 0, 0, 1]);
    p.extend_from_slice(payload);
    p
}

#[test]
fn advert_in_ipv6_packet() {
    let message = router_advert(&prefix_option());
    let packet = ipv6_packet(58, &message, message.len() as u16);
    assert_eq!(router_advert_in_ipv6(&packet), Some(message.clone()));
    let longer = ipv6_packet(58, &message, 1000);
    assert_eq!(router_advert_in_ipv6(&longer), Some(message.clone()));
    let shorter = ipv6_packet(58, &message, 20);
    assert_eq!(router_advert_in_ipv6(&shorter), Some(message[..20].to_vec()));
}

#[test]
fn other_packets_are_not_adverts() {
    let message = router_advert(&prefix_option());
    assert_eq!(router_advert_in_ipv6(&ipv6_packet(17, &message, message.len() as u16)), None);
    let mut solicit = message.clone();
    solicit[0] = 133;
    assert_eq!(router_advert_in_ipv6(&ipv6_packet(58, &solicit, solicit.len() as u16)), None);
    assert_eq!(router_advert_in_ipv6(&ipv6_packet(58, &message, 3)), None);
    assert_eq!(router_advert_in_ipv6(&message[..30]), None);
}

#[test]
fn prefix_information_summary() {
    let info = parse_prefix_information(&prefix_payload());
    assert_eq!(
        info.summary(),
        vec![
            "Prefix Length: 56",
            "On Link Flag: true",
            "Autonomous Address Configuration Flag: true",
            "Valid Lifetime: 86400",
            "Preferred Lifetime: 14400",
            "Prefix: 2001:0db8:1234:5600:0000:0000:0000:0000",
        ]
    );
    let mut p = prefix_payload();
    p[0] = 128;
    p[1] = 0;
    p[2..6].copy_from_slice(&u32::MAX.to_be_bytes());
    let info = parse_prefix_information(&p);
    let summary = info.summary();
    assert_eq!(summary[1], "On Link Flag: false");
    assert_eq!(summary[2], "Autonomous Address Configuration Flag: false");
    assert_eq!(summary[3], "Valid Lifetime: 4294967295");
    assert_eq!(summary[5], "Prefix: 2001:0db8:1234:56ff:ffff:0000:0000:0001");
}
