use pch_easy_ipv6::ipv6::{
    add_subnet_draw, generate_first_ipv6_with_prefix, generate_random_ipv6_with_prefix,
    generate_unique_random_subnet, ipv6_start_with_prefix, ipv6_with_random_suffix,
    is_link_local_address, is_unique_local_address, prefix_mask,
};

const DOC: [u16; 8] = [0x2001, 0x0db8, 0x1234, 0x5678, 0x9abc, 0xdef0, 0x1111, 0x2222];

#[test]
fn mask_of_whole_and_partial_words() {
    assert_eq!(prefix_mask(48), [0xffff, 0xffff, 0xffff, 0, 0, 0, 0, 0]);
    assert_eq!(prefix_mask(50), [0xffff, 0xffff, 0xffff, 0xc000, 0, 0, 0, 0]);
    assert_eq!(prefix_mask(0), [0; 8]);
    assert_eq!(prefix_mask(128), [0xffff; 8]);
    assert_eq!(prefix_mask(200), [0xffff; 8]);
    assert_eq!(prefix_mask(127), [0xffff, 0xffff, 0xffff, 0xffff, 0xffff, 0xffff, 0xffff, 0xfffe]);
}

#[test]
fn start_with_prefix_same_network() {
    let addr = [0x2001, 0x0db8, 0x1234, 0x5678, 0, 0, 0, 1];
    let prefix = [0x2001, 0x0db8, 0x1234, 0x5678, 0, 0, 0, 0];
    assert!(ipv6_start_with_prefix(&addr, &prefix, 64));
    assert!(ipv6_start_with_prefix(&addr, &prefix, 127));
    assert!(!ipv6_start_with_prefix(&addr, &prefix, 128));
}

#[test]
fn start_with_prefix_checks_only_the_prefix_bits() {
    // The two addresses first differ at bit 63 (the lowest bit of word 3).
    let a = [0x2001, 0x0db8, 0, 0x0001, 0, 0, 0, 0];
    let b = [0x2001, 0x0db8, 0, 0x0000, 0xffff, 0, 0, 0];
    assert!(ipv6_start_with_prefix(&a, &b, 63));
    assert!(!ipv6_start_with_prefix(&a, &b, 64));
    assert!(ipv6_start_with_prefix(&a, &b, 0));
    assert!(!ipv6_start_with_prefix(&a, &b, 200));
}

#[test]
fn start_with_prefix_is_reflexive() {
    for len in [0u8, 1, 17, 64, 100, 128, 255] {
        assert!(ipv6_start_with_prefix(&DOC, &DOC, len));
    }
}

#[test]
fn first_address_of_a_48() {
    assert_eq!(
        generate_first_ipv6_with_prefix(&DOC, 48),
        Ok([0x2001, 0x0db8, 0x1234, 0, 0, 0, 0, 1])
    );
}

#[test]
fn first_address_of_long_prefixes() {
    let p = [0x2001, 0x0db8, 0, 0, 0, 0, 0, 0x12ff];
    assert_eq!(
        generate_first_ipv6_with_prefix(&p, 120),
        Ok([0x2001, 0x0db8, 0, 0, 0, 0, 0, 0x1201])
    );
    let q = [0x2001, 0x0db8, 0, 0, 0, 0, 0, 5];
    assert_eq!(
        generate_first_ipv6_with_prefix(&q, 128),
        Ok([0x2001, 0x0db8, 0, 0, 0, 0, 0, 6])
    );
}

#[test]
fn first_address_refuses_long_lengths() {
    assert_eq!(
        generate_first_ipv6_with_prefix(&DOC, 129),
        Err(String::from("Prefix length must be less than 128"))
    );
}

#[test]
fn first_address_lies_in_its_network() {
    for len in [0u8, 16, 48, 56, 64, 100, 127] {
        let first = generate_first_ipv6_with_prefix(&DOC, len).unwrap();
        assert!(ipv6_start_with_prefix(&first, &DOC, len));
    }
}

#[test]
fn unique_local_range() {
    assert!(is_unique_local_address(&[0xfd12, 0x3456, 0, 0, 0, 0, 0, 1]));
    assert!(is_unique_local_address(&[0xfc00, 0, 0, 0, 0, 0, 0, 0]));
    assert!(!is_unique_local_address(&[0xfe00, 0, 0, 0, 0, 0, 0, 0]));
    assert!(!is_unique_local_address(&DOC));
}

#[test]
fn link_local_range() {
    assert!(is_link_local_address(&[0xfe80, 0, 0, 0, 0, 0, 0, 1]));
    assert!(is_link_local_address(&[0xfebf, 0xffff, 0, 0, 0, 0, 0, 1]));
    assert!(!is_link_local_address(&[0xfec0, 0, 0, 0, 0, 0, 0, 1]));
    assert!(!is_link_local_address(&DOC));
}

#[test]
fn subnet_length_errors() {
    let p = [0x2001, 0x0db8, 0, 0, 0, 0, 0, 0];
    assert_eq!(
        generate_unique_random_subnet(&p, 64, 64, 1),
        Err(String::from("Mainnet prefix length must be less than subnet prefix length"))
    );
    assert_eq!(
        generate_unique_random_subnet(&p, 64, 48, 1),
        Err(String::from("Mainnet prefix length must be less than 128"))
    );
    assert_eq!(
        generate_unique_random_subnet(&p, 100, 200, 1),
        Err(String::from("Subnet prefix length must be less than 128"))
    );
    assert_eq!(
        generate_unique_random_subnet(&p, 56, 128, 0),
        Ok((vec![], 128))
    );
}

#[test]
fn subnets_of_a_40_two_bits_longer() {
    // 130 stands for the delegated length plus 2: four /42 subnets exist.
    let p = [0x2001, 0x0db8, 0xab00, 0, 0, 0, 0, 0];
    let (subnets, len) = generate_unique_random_subnet(&p, 40, 130, 4).unwrap();
    assert_eq!(len, 42);
    assert_eq!(subnets.len(), 4);
    let mut thirds: Vec<u16> = subnets.iter().map(|s| s[2]).collect();
    thirds.sort();
    assert_eq!(thirds, vec![0xab00, 0xab40, 0xab80, 0xabc0]);
    for s in &subnets {
        assert!(ipv6_start_with_prefix(s, &p, 40));
        assert_eq!(s[0..2], p[0..2]);
        assert_eq!(s[3..8], p[3..8]);
    }
}

#[test]
fn the_four_64s_of_a_62() {
    let p = [0x2001, 0x0db8, 0, 0, 0, 0, 0, 0];
    let (subnets, len) = generate_unique_random_subnet(&p, 62, 130, 4).unwrap();
    assert_eq!(len, 64);
    let mut fourths: Vec<u16> = subnets.iter().map(|s| s[3]).collect();
    fourths.sort();
    assert_eq!(fourths, vec![0, 1, 2, 3]);
    for s in &subnets {
        assert_eq!(s[0..3], p[0..3]);
        assert_eq!(s[4..8], p[4..8]);
    }
}

#[test]
fn every_64_of_a_56_can_come_out() {
    let p = [0x2001, 0x0db8, 0, 0, 0, 0, 0, 0];
    let (subnets, len) = generate_unique_random_subnet(&p, 56, 64, 256).unwrap();
    assert_eq!(len, 64);
    let mut fourths: Vec<u16> = subnets.iter().map(|s| s[3]).collect();
    fourths.sort();
    assert_eq!(fourths, (0u16..256).collect::<Vec<u16>>());
}

#[test]
fn random_subnets_cover_whole_words() {
    // A /32 split into /64s: the whole of words 2 and 3 is drawn.
    let p = [0x2001, 0x0db8, 0, 0, 0, 0, 0, 0];
    let mut seen_high_word = false;
    for _ in 0..20 {
        let (subnets, len) = generate_unique_random_subnet(&p, 32, 64, 2).unwrap();
        assert_eq!(len, 64);
        assert_ne!(subnets[0], subnets[1]);
        for s in &subnets {
            assert!(ipv6_start_with_prefix(s, &p, 32));
            assert_eq!(s[4..8], [0, 0, 0, 0]);
            seen_high_word |= s[2] != 0;
        }
    }
    assert!(seen_high_word);
}

#[test]
fn random_subnets_stay_in_the_delegated_prefix() {
    let p = [0x2001, 0x0db8, 0xab00, 0, 0, 0, 0, 0];
    for _ in 0..20 {
        let (subnets, len) = generate_unique_random_subnet(&p, 36, 60, 5).unwrap();
        assert_eq!(len, 60);
        for (i, s) in subnets.iter().enumerate() {
            assert!(ipv6_start_with_prefix(s, &p, 36));
            for t in &subnets[i + 1..] {
                assert_ne!(s, t);
            }
        }
    }
}

#[test]
fn random_suffix_combination() {
    let random = [0xffff; 8];
    assert_eq!(
        ipv6_with_random_suffix(&DOC, 52, &random),
        Ok([0x2001, 0x0db8, 0x1234, 0x5fff, 0xffff, 0xffff, 0xffff, 0xffff])
    );
    assert_eq!(ipv6_with_random_suffix(&DOC, 0, &random), Ok(random));
    assert_eq!(ipv6_with_random_suffix(&DOC, 128, &random), Ok(DOC));
    assert_eq!(
        ipv6_with_random_suffix(&DOC, 129, &random),
        Err(String::from("Prefix length must be less than 128"))
    );
}

#[test]
fn random_address_in_prefix() {
    for len in [0u8, 20, 64, 127, 128] {
        let a = generate_random_ipv6_with_prefix(&DOC, len).unwrap();
        assert!(ipv6_start_with_prefix(&a, &DOC, len));
    }
    assert_eq!(generate_random_ipv6_with_prefix(&DOC, 128), Ok(DOC));
    assert_eq!(
        generate_random_ipv6_with_prefix(&DOC, 200),
        Err(String::from("Prefix length must be less than 128"))
    );
}

#[test]
fn a_draw_fills_the_bits_between_the_lengths() {
    let p = [0x2001, 0x0db8, 0, 0, 0, 0, 0, 0];
    let mut subnets = Vec::new();
    add_subnet_draw(&mut subnets, &p, 62, 64, &[0xffff; 8]);
    assert_eq!(subnets, vec![[0x2001, 0x0db8, 0, 3, 0, 0, 0, 0]]);
    add_subnet_draw(&mut subnets, &p, 56, 64, &[0x1234, 0x5678, 0x9abc, 0xdef0, 1, 2, 3, 4]);
    assert_eq!(subnets, vec![[0x2001, 0x0db8, 0, 3, 0, 0, 0, 0], [0x2001, 0x0db8, 0, 0xf0, 0, 0, 0, 0]]);
}

#[test]
fn a_repeated_draw_adds_nothing() {
    let p = [0x2001, 0x0db8, 0x1200, 0, 0, 0, 0, 0];
    let mut subnets = Vec::new();
    add_subnet_draw(&mut subnets, &p, 40, 48, &[0, 0, 0x00ab, 0, 0, 0, 0, 0]);
    add_subnet_draw(&mut subnets, &p, 40, 48, &[0xffff, 0, 0xffab, 9, 9, 9, 9, 9]);
    assert_eq!(subnets, vec![[0x2001, 0x0db8, 0x12ab, 0, 0, 0, 0, 0]]);
}

#[test]
fn an_extended_request_means_the_delegated_length_plus_more() {
    let p = [0x2001, 0x0db8, 0x1200, 0, 0, 0, 0, 0];
    let (a, len_a) = generate_unique_random_subnet(&p, 56, 136, 3).unwrap();
    let (b, len_b) = generate_unique_random_subnet(&p, 56, 64, 3).unwrap();
    assert_eq!(len_a, 64);
    assert_eq!(len_b, 64);
    for s in a.iter().chain(b.iter()) {
        assert!(ipv6_start_with_prefix(s, &p, 56));
        assert_eq!(&s[4..], &[0, 0, 0, 0]);
    }
    assert_eq!(generate_unique_random_subnet(&p, 56, 200, 1).unwrap().1, 128);
    assert_eq!(generate_unique_random_subnet(&p, 56, 128, 1).unwrap().1, 128);
}
