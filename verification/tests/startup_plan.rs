use tunproxy::startup::{startup_plan, StartupError};

#[test]
fn valid_host_name_starts_without_profiler() {
    let plan = startup_plan("proxy.example.com", false).unwrap();
    assert!(plan.run_tcp && plan.run_udp);
    assert!(!plan.run_profiler);
    assert!(!plan.bypass_channel);
    assert_eq!(plan.server_name.into_name().to_str(), "proxy.example.com");
}

#[test]
fn bypass_adds_profiler_and_channel() {
    let plan = startup_plan("proxy.example.com", true).unwrap();
    assert!(plan.run_tcp && plan.run_udp);
    assert!(plan.run_profiler);
    assert!(plan.bypass_channel);
}

#[test]
fn ip_address_is_a_server_name() {
    let plan = startup_plan("192.0.2.1", false).unwrap();
    assert_eq!(plan.server_name.into_name().to_str(), "192.0.2.1");
    assert!(startup_plan("2001:db8::1", true).is_ok());
}

#[test]
fn invalid_host_name_stops_start_up() {
    assert_eq!(startup_plan("not a host!", false).err(), Some(StartupError::InvalidServerName));
    assert_eq!(startup_plan("", true).err(), Some(StartupError::InvalidServerName));
}
