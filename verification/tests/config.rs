use pch_easy_ipv6::config::Config;

#[test]
fn default_configuration() {
    let c = Config::new();
    assert_eq!(c.subnet_prefix_length, 64);
    assert_eq!(c.upper_interface, "");
    assert_eq!(c.next_interface, "");
    assert!(c.features.radvd && c.features.dhcpv6 && c.features.ndproxy);
    assert!(c.features.config_interface && c.features.router);
}

#[test]
fn loading_replaces_the_settings() {
    let mut c = Config::new();
    let mut loaded = Config::new();
    loaded.subnet_prefix_length = 130;
    loaded.upper_interface = String::from("ppp0");
    loaded.next_interface = String::from("br-lan");
    loaded.features.radvd = false;
    let r = c.load(Ok(loaded)).unwrap();
    assert_eq!(r.subnet_prefix_length, 130);
    assert_eq!(c.subnet_prefix_length, 130);
    assert_eq!(c.upper_interface, "ppp0");
    assert_eq!(c.next_interface, "br-lan");
    assert!(!c.features.radvd);
}

#[test]
fn failed_loading_keeps_the_settings() {
    let mut c = Config::new();
    c.next_interface = String::from("eth1");
    let r = c.load(Err(String::from("No such file or directory (os error 2)")));
    assert_eq!(r.unwrap_err(), "No such file or directory (os error 2)");
    assert_eq!(c.next_interface, "eth1");
    assert_eq!(c.subnet_prefix_length, 64);
}

#[test]
fn duplicate_copies_every_field() {
    let mut c = Config::new();
    c.upper_interface = String::from("ppp0");
    c.features.dhcpv6 = false;
    let d = c.duplicate();
    assert_eq!(d.upper_interface, "ppp0");
    assert!(!d.features.dhcpv6);
    assert_eq!(d.subnet_prefix_length, 64);
}
