use tunproxy::keepalive::IpsetKeepalive;
use tunproxy::packet::{Endpoint, IpAddress};
use tunproxy::registry::EndpointRegistry;
use tunproxy::tls::{server_cert_check, InsecureAuth, ServerCertCheck};
use tunproxy::waker::{waker_plan, WakerMode, WakerPlan, WakerSlot};

#[test]
fn ensure_opens_once_per_endpoint() {
    let mut reg = EndpointRegistry::new();
    let a = Endpoint { addr: IpAddress::V4(1), port: 80 };
    let b = Endpoint { addr: IpAddress::V4(1), port: 81 };
    assert!(reg.ensure_tcp(a));
    assert!(!reg.ensure_tcp(a));
    assert!(reg.ensure_tcp(b));
    assert!(reg.has_tcp(&a));
    assert!(!reg.has_udp(&a));
    assert!(reg.ensure_udp(a));
    assert!(!reg.ensure_udp(a));
}

#[test]
fn release_frees_the_endpoint() {
    let mut reg = EndpointRegistry::new();
    let a = Endpoint { addr: IpAddress::V6(7), port: 443 };
    assert!(!reg.release_tcp(&a));
    assert!(reg.ensure_tcp(a));
    assert!(reg.ensure_udp(a));
    assert!(reg.release_tcp(&a));
    assert!(!reg.has_tcp(&a));
    assert!(reg.has_udp(&a));
    assert!(reg.ensure_tcp(a));
    assert!(reg.release_udp(&a));
    assert!(!reg.release_udp(&a));
}

#[test]
fn waker_plans() {
    assert_eq!(waker_plan(WakerMode::Recv), WakerPlan { recv: Some(WakerSlot::Receive), send: None });
    assert_eq!(waker_plan(WakerMode::Send), WakerPlan { recv: None, send: Some(WakerSlot::Transmit) });
    assert_eq!(
        waker_plan(WakerMode::Both),
        WakerPlan { recv: Some(WakerSlot::Receive), send: Some(WakerSlot::Transmit) }
    );
    assert_eq!(waker_plan(WakerMode::Dummy), WakerPlan { recv: Some(WakerSlot::Dummy), send: Some(WakerSlot::Dummy) });
    assert_eq!(waker_plan(WakerMode::Unchanged), WakerPlan { recv: None, send: None });
}

#[test]
fn keepalive_refreshes_every_timeout_ticks() {
    assert!(IpsetKeepalive::start(0).is_none());
    let mut k = IpsetKeepalive::start(3).unwrap();
    let seen: Vec<Option<u32>> = (0..7).map(|_| k.tick()).collect();
    assert_eq!(seen, vec![Some(8), None, None, Some(8), None, None, Some(8)]);
    assert_eq!(k.ticks(), 7);
}

#[test]
fn keepalive_with_unit_timeout_never_refreshes() {
    let mut k = IpsetKeepalive::start(1).unwrap();
    for _ in 0..5 {
        assert_eq!(k.tick(), None);
    }
}

#[test]
fn keepalive_ttl_truncates_to_32_bits() {
    let k = IpsetKeepalive::start((1u64 << 32) + 10).unwrap();
    assert_eq!(k.ttl(), Some(15));
    let k = IpsetKeepalive::start(u32::MAX as u64).unwrap();
    assert_eq!(k.ttl(), None);
}

#[test]
fn insecure_mode_accepts_any_certificate() {
    assert_eq!(server_cert_check(true), ServerCertCheck::AcceptAny(InsecureAuth));
    assert_eq!(server_cert_check(false), ServerCertCheck::WebPkiRoots);
}
