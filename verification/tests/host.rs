use pch_easy_ipv6::host::{
    cidr_text, command_result, deletion_targets, get_public_ipv6_addr, ip_command_args,
    need_update, radvd_config_text, radvd_restart_result, InterfaceAddress, IpAction, IpObject,
};

const GLOBAL: [u16; 8] = [0x2001, 0x0db8, 0x1234, 0x5601, 0, 0, 0, 1];

#[test]
fn public_addresses_leave_out_local_ones() {
    let ips = vec![
        InterfaceAddress::V4,
        InterfaceAddress::V6 { address: [0xfe80, 0, 0, 0, 0, 0, 0, 1], prefix_length: 64 },
        InterfaceAddress::V6 { address: GLOBAL, prefix_length: 64 },
        InterfaceAddress::V6 { address: [0xfd00, 0, 0, 0, 0, 0, 0, 1], prefix_length: 48 },
        InterfaceAddress::V6 { address: [0x2400, 1, 0, 0, 0, 0, 0, 2], prefix_length: 60 },
    ];
    assert_eq!(
        get_public_ipv6_addr(Some(&ips)),
        Ok(vec![(GLOBAL, 64), ([0x2400, 1, 0, 0, 0, 0, 0, 2], 60)])
    );
    assert_eq!(get_public_ipv6_addr(Some(&vec![])), Ok(vec![]));
}

#[test]
fn public_addresses_of_a_missing_interface() {
    assert_eq!(get_public_ipv6_addr(None), Err(String::from("未找到以太网接口")));
}

#[test]
fn update_needed_without_addresses() {
    let prefix = [0x2001, 0x0db8, 0x1234, 0x5600, 0, 0, 0, 0];
    assert!(need_update(&vec![], &prefix, 56));
}

#[test]
fn update_needed_when_an_address_is_outside() {
    let prefix = [0x2001, 0x0db8, 0x1234, 0x5600, 0, 0, 0, 0];
    assert!(!need_update(&vec![(GLOBAL, 64)], &prefix, 56));
    let other = [0x2001, 0x0db8, 0x9999, 0, 0, 0, 0, 1];
    assert!(need_update(&vec![(GLOBAL, 64), (other, 64)], &prefix, 56));
    assert!(need_update(&vec![(other, 64), (GLOBAL, 64)], &prefix, 56));
}

#[test]
fn network_text() {
    assert_eq!(cidr_text("2001:db8::1", 64), "2001:db8::1/64");
    assert_eq!(cidr_text("::", 0), "::/0");
    assert_eq!(cidr_text("fd00::", 255), "fd00::/255");
}

#[test]
fn radvd_configuration_text() {
    let expected = "interface br-lan\n{\n    MinRtrAdvInterval 3;\n    MaxRtrAdvInterval 4;\n    AdvSendAdvert on;\n    AdvManagedFlag on;\n    prefix 2001:db8:1234:5640::1/58 \n    {\n        AdvValidLifetime 14300; \n        AdvPreferredLifetime 14200; \n    };\n};";
    assert_eq!(radvd_config_text("br-lan", "2001:db8:1234:5640::1", 58), expected);
}

#[test]
fn radvd_restart_codes() {
    assert_eq!(radvd_restart_result(Some(0)), Ok(()));
    assert_eq!(
        radvd_restart_result(Some(5)),
        Err(String::from("systemctl restart radvd failed: 5"))
    );
    assert_eq!(
        radvd_restart_result(Some(-1)),
        Err(String::from("systemctl restart radvd failed: -1"))
    );
    assert_eq!(
        radvd_restart_result(Some(i32::MIN)),
        Err(String::from("systemctl restart radvd failed: -2147483648"))
    );
    assert_eq!(
        radvd_restart_result(None),
        Err(String::from("systemctl restart radvd failed"))
    );
}

#[test]
fn ip_commands() {
    assert_eq!(
        ip_command_args(IpObject::Addr, IpAction::Add, "2001:db8::1/64", "br-lan"),
        vec!["-6", "addr", "add", "2001:db8::1/64", "dev", "br-lan"]
    );
    assert_eq!(
        ip_command_args(IpObject::Route, IpAction::Add, "2001:db8::1/64", "br-lan"),
        vec!["-6", "route", "add", "2001:db8::1/64", "dev", "br-lan", "metric", "100"]
    );
    assert_eq!(
        ip_command_args(IpObject::Route, IpAction::Del, "2001:db8::1/64", "br-lan"),
        vec!["-6", "route", "del", "2001:db8::1/64", "dev", "br-lan"]
    );
    assert_eq!(
        ip_command_args(IpObject::Addr, IpAction::Del, "2001:db8::1/64", "br-lan"),
        vec!["-6", "addr", "del", "2001:db8::1/64", "dev", "br-lan"]
    );
}

#[test]
fn command_outcomes() {
    assert_eq!(command_result(Ok((true, String::from("exit status: 0"), String::new()))), Ok(()));
    assert_eq!(
        command_result(Ok((
            false,
            String::from("exit status: 2"),
            String::from("RTNETLINK answers: File exists\n")
        ))),
        Err(String::from(
            "Command failed with status exit status: 2: RTNETLINK answers: File exists\n"
        ))
    );
    assert_eq!(
        command_result(Err(String::from("No such file or directory (os error 2)"))),
        Err(String::from("Failed to execute process: No such file or directory (os error 2)"))
    );
}

#[test]
fn deletion_targets_pass_the_listing_on() {
    assert_eq!(deletion_targets(Ok(vec![(GLOBAL, 64)])), Ok(vec![(GLOBAL, 64)]));
    assert_eq!(
        deletion_targets(Err(String::from("未找到以太网接口"))),
        Err(String::from("获取IPv6地址失败: 未找到以太网接口"))
    );
}
