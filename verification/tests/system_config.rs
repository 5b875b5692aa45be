use rotor_dns::IpAddr;
use rotor_dns::ServerAddr;
use rotor_dns::ipv4;
use rotor_dns::config::Config;
use rotor_dns::config::SystemConfigError;

#[test]
fn resolv_conf_is_parsed_into_a_config() {
    let text = b"nameserver 8.8.8.8\nnameserver 1.1.1.1\noptions timeout:3 attempts:4\n";
    let cfg = Config::from_resolv_conf(text).unwrap();
    assert_eq!(cfg.nameservers.len(), 2);
    assert_eq!(cfg.nameservers[0], ServerAddr { ip: IpAddr::V4(ipv4(8, 8, 8, 8)), port: 53 });
    assert_eq!(cfg.nameservers[1], ServerAddr { ip: IpAddr::V4(ipv4(1, 1, 1, 1)), port: 53 });
    assert_eq!(cfg.timeout, 3_000);
    assert_eq!(cfg.attempts, 4);
}

#[test]
fn ipv6_nameservers_are_carried_over() {
    let cfg = Config::from_resolv_conf(b"nameserver ::1\n").unwrap();
    assert_eq!(cfg.nameservers.len(), 1);
    assert_eq!(cfg.nameservers[0], ServerAddr { ip: IpAddr::V6(0, 0, 0, 0, 0, 0, 0, 1), port: 53 });
}

#[test]
fn malformed_resolv_conf_is_an_error() {
    let err = Config::from_resolv_conf(b"nameserver not-an-address\n").unwrap_err();
    assert_eq!(err, SystemConfigError::ResolvConf);
}

#[test]
fn zero_timeout_becomes_the_smallest_positive_one() {
    let cfg = Config::from_resolv_conf(b"nameserver 8.8.8.8\noptions timeout:0\n").unwrap();
    assert_eq!(cfg.timeout, 1);
}
