use ronitor::kernel::{KernelCollector, KernelProbes};
use ronitor::models::{build_network_info, HealthResponse, ProbeError, SystemUptime};
use ronitor::network::{NetworkCollector, NetworkInterface};

fn kc() -> KernelCollector {
    KernelCollector::new()
}

fn nc() -> NetworkCollector {
    NetworkCollector::new()
}

fn find_iface<'a>(v: &'a [NetworkInterface], name: &str) -> &'a NetworkInterface {
    v.iter().find(|i| i.name == name).expect("interface missing")
}

#[test]
fn uptime_truncates_fractional_seconds() {
    let u = kc().get_system_uptime("12345.67 8910.11");
    assert_eq!(u.total_seconds, 12345);
    assert_eq!(u.days * 86400 + u.hours * 3600 + u.minutes * 60 + u.seconds, u.total_seconds);
}

#[test]
fn uptime_decomposition_is_exact() {
    let u = kc().get_system_uptime("93784.5");
    // 93784 = 1 day, 2 hours, 3 minutes, 4 seconds
    assert_eq!(u.days, 1);
    assert_eq!(u.hours, 2);
    assert_eq!(u.minutes, 3);
    assert_eq!(u.seconds, 4);
    assert_eq!(u.total_seconds, 93784);
}

#[test]
fn uptime_fails_closed_to_zero() {
    assert_eq!(kc().get_system_uptime("").total_seconds, 0);
    assert_eq!(kc().get_system_uptime("abc 12").total_seconds, 0);
    assert_eq!(kc().get_system_uptime("12.3.4").total_seconds, 0);
    assert_eq!(kc().get_system_uptime("99.x").total_seconds, 0);
    assert_eq!(kc().get_system_uptime("18446744073709551616.0").total_seconds, 0);
}

#[test]
fn uptime_accepts_bare_and_dot_terminated_counts() {
    assert_eq!(kc().get_system_uptime("500").total_seconds, 500);
    assert_eq!(kc().get_system_uptime("42.").total_seconds, 42);
    let u = SystemUptime::from_total_seconds(86400 + 59);
    assert_eq!(u.days, 1);
    assert_eq!(u.seconds, 59);
}

fn param_value<'a>(v: &'a [ronitor::models::KernelParam], name: &str) -> Option<&'a str> {
    v.iter().find(|p| p.name == name).map(|p| p.value.as_str())
}

#[test]
fn params_last_duplicate_wins() {
    let ps = kc().get_kernel_parameters("net.a = 1\nkernel.b = 2\nnet.a = 3");
    assert_eq!(param_value(&ps, "net.a"), Some("3"));
    assert_eq!(param_value(&ps, "kernel.b"), Some("2"));
    assert_eq!(ps.len(), 2);
}

#[test]
fn params_split_on_first_equals_and_trim() {
    let ps = kc().get_kernel_parameters("  key.a   =   b=c  \nno equals here\n");
    assert_eq!(param_value(&ps, "key.a"), Some("b=c"));
    assert_eq!(ps.len(), 1);
}

#[test]
fn modules_header_skipped_and_short_lines_dropped() {
    let raw = "Module Size Used by\nmod1 16384 dep1,dep2\nshort line\nmod2 8192 -";
    let ms = kc().get_loaded_modules(raw);
    assert_eq!(ms.len(), 2);
    assert_eq!(ms[0].name, "mod1");
    assert_eq!(ms[0].size, "16384");
    assert_eq!(ms[0].used_by, vec!["dep1".to_string(), "dep2".to_string()]);
    assert_eq!(ms[0].state, "loaded");
    assert_eq!(ms[1].name, "mod2");
}

#[test]
fn modules_single_dependent_yields_one_element() {
    let ms = kc().get_loaded_modules("header\nmod1 123 dep1");
    assert_eq!(ms.len(), 1);
    assert_eq!(ms[0].used_by, vec!["dep1".to_string()]);
}

#[test]
fn modules_header_only_input_is_empty() {
    assert!(kc().get_loaded_modules("Module Size Used by").is_empty());
    assert!(kc().get_loaded_modules("").is_empty());
}

#[test]
fn logs_extract_timestamp_level_message() {
    let raw = "Oct 12 13:45:01 myhost kernel: Something happened";
    let ls = kc().get_kernel_logs(raw);
    assert_eq!(ls.len(), 1);
    assert_eq!(ls[0].timestamp, "Oct 12 13:45:01");
    assert_eq!(ls[0].level, "kernel");
    assert_eq!(ls[0].message, "Something happened");
}

#[test]
fn logs_bad_line_contributes_nothing_and_does_not_abort() {
    let raw = "Oct 12 13:45:01 host kernel: first\nthis is not a log line\nOct 12 13:45:02 host kernel: second";
    let ls = kc().get_kernel_logs(raw);
    assert_eq!(ls.len(), 2);
    assert_eq!(ls[0].message, "first");
    assert_eq!(ls[1].message, "second");
}

#[test]
fn logs_empty_input_gives_no_entries() {
    assert!(kc().get_kernel_logs("").is_empty());
}

#[test]
fn last_boot_strips_marker_and_whitespace() {
    let b = kc().get_last_boot_time("  system boot  2024-01-01 10:00  \n");
    assert_eq!(b, "2024-01-01 10:00");
}

#[test]
fn interfaces_two_entry_scenario() {
    let raw = "1: lo: <LOOPBACK,UP> mtu 65536 qdisc noqueue\n    inet 127.0.0.1/8 scope host lo\n2: eth0: <UP,BROADCAST> mtu 1500 qdisc fq\n    link/ether aa:bb:cc:dd:ee:ff brd ff:ff:ff:ff:ff:ff\n    inet 192.168.1.10/24 brd 192.168.1.255";
    let ifs = nc().get_interfaces(raw);
    assert_eq!(ifs.len(), 2);
    let lo = find_iface(&ifs, "lo");
    assert_eq!(lo.ip_addresses, vec!["127.0.0.1".to_string()]);
    assert_eq!(lo.mtu, 65536);
    assert!(lo.is_up);
    let eth = find_iface(&ifs, "eth0");
    assert_eq!(eth.mac_address, "aa:bb:cc:dd:ee:ff");
    assert_eq!(eth.ip_addresses, vec!["192.168.1.10".to_string()]);
    assert_eq!(eth.mtu, 1500);
    assert!(eth.is_up);
}

#[test]
fn interfaces_last_one_flushed_at_end_of_input() {
    let raw = "5: wlan0: <BROADCAST> mtu 1400";
    let ifs = nc().get_interfaces(raw);
    assert_eq!(ifs.len(), 1);
    assert_eq!(ifs[0].name, "wlan0");
    assert!(!ifs[0].is_up);
    assert_eq!(ifs[0].mtu, 1400);
    assert!(ifs[0].ip_addresses.is_empty());
    assert_eq!(ifs[0].mac_address, "");
}

#[test]
fn interfaces_detail_lines_without_header_ignored() {
    let raw = "    inet 10.0.0.1/8\n    link/ether 11:22:33:44:55:66";
    assert!(nc().get_interfaces(raw).is_empty());
}

#[test]
fn interfaces_repeated_name_overwrites() {
    let raw = "1: eth0: <UP> mtu 1500\n1: eth0: <BROADCAST> mtu 9000";
    let ifs = nc().get_interfaces(raw);
    assert_eq!(ifs.len(), 1);
    assert_eq!(ifs[0].mtu, 9000);
    assert!(!ifs[0].is_up);
}

#[test]
fn interfaces_unparsed_header_keeps_accumulator() {
    let raw = "2: eth0: <UP> mtu 1500\n    inet 10.0.0.1/24\n7 oops\n    inet 10.0.0.2/24";
    let ifs = nc().get_interfaces(raw);
    assert_eq!(ifs.len(), 1);
    assert_eq!(ifs[0].ip_addresses, vec!["10.0.0.1".to_string(), "10.0.0.2".to_string()]);
}

#[test]
fn interfaces_up_needs_the_up_token_itself() {
    let ifs = nc().get_interfaces("2: eth0: <BROADCAST,LOWER_UP> mtu 1500");
    assert_eq!(ifs.len(), 1);
    assert!(!ifs[0].is_up);
    let ifs2 = nc().get_interfaces("3: eth1: <xUP> mtu 1500");
    assert_eq!(ifs2.len(), 1);
    assert!(!ifs2[0].is_up);
}

#[test]
fn interfaces_up_token_found_among_other_flags() {
    let ifs = nc().get_interfaces("2: eth0: <BROADCAST,LOWER_UP,UP> mtu 1500");
    assert_eq!(ifs.len(), 1);
    assert!(ifs[0].is_up);
}

#[test]
fn interfaces_oversized_mtu_reads_as_zero() {
    let ifs = nc().get_interfaces("3: wg0: <UP> mtu 5000000000");
    assert_eq!(ifs.len(), 1);
    assert_eq!(ifs[0].mtu, 0);
}

#[test]
fn usage_excludes_loopback_rows() {
    let raw = "Inter-| Receive | Transmit\n face | bytes packets errs drop fifo frame compressed multicast\n    lo: 100 10 1 0 0 0 0 0 200 20 2 0 0 0 0 0\n  eth0: 1000 500 3 0 0 0 0 0 2000 700 4 0 0 0 0 0";
    let us = nc().get_network_usage(raw);
    assert_eq!(us.len(), 1);
    assert_eq!(us[0].interface, "eth0");
    assert_eq!(us[0].rx_bytes, 1000);
    assert_eq!(us[0].rx_packets, 500);
    assert_eq!(us[0].rx_errors, 3);
    assert_eq!(us[0].tx_bytes, 2000);
    assert_eq!(us[0].tx_packets, 700);
    assert_eq!(us[0].tx_errors, 4);
}

#[test]
fn usage_short_rows_and_headers_skipped() {
    let raw = "h1\nh2\neth1: 1 2 3\neth2: 9 8 7 6 5 4 3 2 1 9 8 7 6 5 4 3";
    let us = nc().get_network_usage(raw);
    assert_eq!(us.len(), 1);
    assert_eq!(us[0].interface, "eth2");
    assert_eq!(us[0].rx_bytes, 9);
}

#[test]
fn usage_bad_counter_column_reads_as_zero() {
    let raw = "h1\nh2\neth0: x 500 3 0 0 0 0 0 2000 700 4 0 0 0 0 0";
    let us = nc().get_network_usage(raw);
    assert_eq!(us.len(), 1);
    assert_eq!(us[0].rx_bytes, 0);
    assert_eq!(us[0].tx_bytes, 2000);
}

#[test]
fn kernel_snapshot_survives_module_probe_failure() {
    let probes = KernelProbes {
        version: Ok("#1 SMP Tue Jan 1\n".to_string()),
        release: Ok("6.1.0\n".to_string()),
        architecture: Ok("x86_64\n".to_string()),
        os_name: Ok("GNU/Linux\n".to_string()),
        hostname: Ok("myhost\n".to_string()),
        uptime: Ok("100.5 200.1".to_string()),
        last_boot: Ok("system boot 2024-01-01".to_string()),
        parameters: Ok("a = 1".to_string()),
        modules: Err(ProbeError::Unavailable),
        logs: Ok("Oct 12 13:45:01 h kernel: msg".to_string()),
    };
    let info = KernelCollector::new().get_kernel_info(probes);
    assert!(info.loaded_modules.is_empty());
    assert_eq!(info.version, "#1 SMP Tue Jan 1");
    assert_eq!(info.release, "6.1.0");
    assert_eq!(info.architecture, "x86_64");
    assert_eq!(info.os_name, "GNU/Linux");
    assert_eq!(info.hostname, "myhost");
    assert_eq!(info.uptime.total_seconds, 100);
    assert_eq!(info.last_boot, "2024-01-01");
    assert_eq!(info.kernel_parameters.len(), 1);
    assert_eq!(info.logs.len(), 1);
}

#[test]
fn kernel_snapshot_all_probes_failed_is_all_defaults() {
    let probes = KernelProbes {
        version: Err(ProbeError::Timeout),
        release: Err(ProbeError::Unavailable),
        architecture: Err(ProbeError::Unavailable),
        os_name: Err(ProbeError::Unavailable),
        hostname: Err(ProbeError::Unavailable),
        uptime: Err(ProbeError::Timeout),
        last_boot: Err(ProbeError::Unavailable),
        parameters: Err(ProbeError::Unavailable),
        modules: Err(ProbeError::Unavailable),
        logs: Err(ProbeError::Timeout),
    };
    let info = KernelCollector::new().get_kernel_info(probes);
    assert_eq!(info.version, "");
    assert_eq!(info.uptime.total_seconds, 0);
    assert_eq!(info.uptime.days, 0);
    assert_eq!(info.last_boot, "");
    assert!(info.kernel_parameters.is_empty());
    assert!(info.loaded_modules.is_empty());
    assert!(info.logs.is_empty());
}

#[test]
fn network_snapshot_partial_failure() {
    let net = build_network_info(
        Ok("1: eth0: <UP> mtu 1500".to_string()),
        Err(ProbeError::Timeout),
    );
    assert_eq!(net.interfaces.len(), 1);
    assert_eq!(net.interfaces[0].name, "eth0");
    assert!(net.usage.is_empty());

    let net2 = build_network_info(
        Err(ProbeError::Unavailable),
        Ok("h1\nh2\neth0: 1 2 3 4 5 6 7 8 9 10 11 12 13 14 15 16".to_string()),
    );
    assert!(net2.interfaces.is_empty());
    assert_eq!(net2.usage.len(), 1);
}

#[test]
fn health_response_carries_status() {
    let h = HealthResponse { status: "ok".to_string() };
    assert_eq!(h.status, "ok");
    let _ = ronitor::processes::ProcessCollector::new();
}
