use mcping::errors::PingError;
use mcping::resolve::{apply_srv_outcome, is_ip_literal, plan_resolution, ResolvePlan, SrvOutcome};

#[test]
fn ipv4_literals_are_recognized() {
    assert!(is_ip_literal("127.0.0.1"));
    assert!(is_ip_literal("0.0.0.0"));
    assert!(is_ip_literal("255.255.255.255"));
    assert!(is_ip_literal("192.168.4.77"));
}

#[test]
fn ipv4_lookalikes_are_rejected() {
    assert!(!is_ip_literal("256.0.0.1"));
    assert!(!is_ip_literal("01.2.3.4"));
    assert!(!is_ip_literal("1.2.3"));
    assert!(!is_ip_literal("1.2.3.4.5"));
    assert!(!is_ip_literal("1.2.3."));
    assert!(!is_ip_literal(".1.2.3.4"));
    assert!(!is_ip_literal("1.2.3.4a"));
    assert!(!is_ip_literal(""));
}

#[test]
fn ipv6_literals_are_recognized() {
    assert!(is_ip_literal("::"));
    assert!(is_ip_literal("::1"));
    assert!(is_ip_literal("2001:db8::1"));
    assert!(is_ip_literal("1:2:3:4:5:6:7:8"));
    assert!(is_ip_literal("fe80::"));
    assert!(is_ip_literal("::ffff:192.168.0.1"));
    assert!(is_ip_literal("1:2:3:4:5:6:1.2.3.4"));
    assert!(is_ip_literal("ABCD:ef01::2"));
}

#[test]
fn ipv6_lookalikes_are_rejected() {
    assert!(!is_ip_literal("1:2:3:4:5:6:7:8:9"));
    assert!(!is_ip_literal("1:2:3:4:5:6:7"));
    assert!(!is_ip_literal("1::2::3"));
    assert!(!is_ip_literal(":::"));
    assert!(!is_ip_literal(":1:2:3:4:5:6:7"));
    assert!(!is_ip_literal("12345::"));
    assert!(!is_ip_literal("g::1"));
    assert!(!is_ip_literal("1:2:3:4:5:6:7:8::"));
    assert!(!is_ip_literal("fe80::1%eth0"));
}

#[test]
fn hostnames_are_not_literals() {
    assert!(!is_ip_literal("example.com"));
    assert!(!is_ip_literal("mc.example.net"));
    assert!(!is_ip_literal("localhost"));
}

#[test]
fn literal_ip_bypasses_srv_lookup() {
    match plan_resolution("127.0.0.1", 25565) {
        ResolvePlan::Direct(host, port) => {
            assert_eq!(host, "127.0.0.1");
            assert_eq!(port, 25565);
        },
        ResolvePlan::QuerySrv(_) => panic!("a literal address must not reach the resolver"),
    }
}

#[test]
fn hostname_plans_an_srv_query() {
    match plan_resolution("example.com", 25565) {
        ResolvePlan::QuerySrv(name) => assert_eq!(name, "_minecraft._tcp.example.com"),
        ResolvePlan::Direct(_, _) => panic!("a hostname must be tried as a service record"),
    }
}

#[test]
fn srv_record_overrides_host_and_port() {
    let r = apply_srv_outcome(
        "example.com",
        25565,
        SrvOutcome::Found("mc.example.net.".to_string(), 25599),
    );
    assert_eq!(r, Ok(("mc.example.net.".to_string(), 25599)));
}

#[test]
fn srv_empty_answer_fails() {
    assert_eq!(
        apply_srv_outcome("example.com", 25565, SrvOutcome::NoRecords),
        Err(PingError::SrvResolutionFailed)
    );
}

#[test]
fn srv_lookup_error_falls_back_silently() {
    assert_eq!(
        apply_srv_outcome("example.com", 25565, SrvOutcome::LookupError),
        Ok(("example.com".to_string(), 25565))
    );
}
