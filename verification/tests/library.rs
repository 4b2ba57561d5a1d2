use king_network_tools::gateway::{gateway_entry, gateway_info, parse_linux_routes, parse_windows_routes, Gateway};
use king_network_tools::http_timing::{curl_timing, get_http_targets};
use king_network_tools::iface_stats::{
    parse_proc_net_dev, proc_net_dev_complete, to_mib_milli, windows_stats, AdapterCounts, AdapterStatsDoc,
};
use king_network_tools::ip::{
    interfaces_from_records, parse_ip_json, parse_ip_text, windows_interfaces, windows_ip_from_output,
    windows_ip_query, AddrInfoRecord, IpLinkRecord, NetAdapterRecord,
};
use king_network_tools::mtr::{linux_mtr, mtr_hop_from_ping, mtr_hop_from_route, mtr_ping_count, mtr_report, windows_mtr};
use king_network_tools::network_scan::{
    detect_subnet, finish_scan, host_entry, identify_vendor, lookup_mac, parse_arp_table, scan_addresses,
    scan_base, NetworkHost,
};
use king_network_tools::num::{decimal_string, is_number_v, min_avg_max, parse_milli_v, push_tenths, read_milli_v};
use king_network_tools::ports::{
    build_service_map, get_port_list, parse_listening_ports, scan_result, service_name, ConnectOutcome,
};
use king_network_tools::quality::{classify_loss, get_thresholds, quality_color};
use king_network_tools::report::{extract_general_quality, extract_ping_summary, extract_worst_hop, generate_report, report_at};
use king_network_tools::route::ping::{
    extract_host, extract_windows_host, linux_ping_result, linux_summary_step, loss_v, new_acc, ping_counts_consistent,
    ping_outcome, windows_ping_result, windows_summary_step,
};
use king_network_tools::route::tracepath::tracepath_hop;
use king_network_tools::route::tracert::tracert_hop;
use king_network_tools::route::traceroute::{parse_traceroute_output, read_traceroute_output};
use king_network_tools::route::{
    better_route, classify_hop_status, classify_quality, finish_trace_route, parse_ping_output,
    route_response_score, silent, trim_trailing_no_reply, Hop, PingResult,
};
use king_network_tools::speedtest::{
    calc_mbps, classify_speed, counts_toward_download, download_outcome, download_progress,
    generate_upload_data, speedtest_outcome, upload_accepted, upload_outcome, upload_progress,
};

fn hop(n: u32, address: &str, avg: u64, status: &str) -> Hop {
    Hop {
        hop_number: n,
        address: address.to_string(),
        hostname: None,
        avg_ms: avg,
        min_ms: avg,
        max_ms: avg,
        loss_pct: 0,
        status: status.to_string(),
    }
}

fn ping_result(avg: u64, received: u8, color: &str) -> PingResult {
    PingResult {
        host: "10.0.0.1".to_string(),
        packets_sent: 3,
        packets_received: received,
        loss_pct: 0,
        min_ms: avg,
        avg_ms: avg,
        max_ms: avg,
        jitter_ms: 0,
        quality: "Bom".to_string(),
        quality_color: color.to_string(),
    }
}

// ---------------------------------------------------------------------------
// Routes

#[test]
fn trailing_silent_hops_are_dropped_but_one_hop_stays() {
    let hops = vec![hop(1, "10.0.0.1", 1000, "ok"), silent(2, "*"), silent(3, "*")];
    let t = trim_trailing_no_reply(hops);
    assert_eq!(t.len(), 1);
    assert_eq!(t[0].address, "10.0.0.1");

    let only_silent = vec![silent(1, "*"), silent(2, "*")];
    let t = trim_trailing_no_reply(only_silent);
    assert_eq!(t.len(), 1);
    assert_eq!(t[0].hop_number, 1);
}

#[test]
fn the_route_with_more_answers_wins_and_a_tie_keeps_the_first() {
    let first = vec![hop(1, "10.0.0.1", 1000, "ok"), silent(2, "*")];
    let second = vec![silent(1, "*"), hop(2, "10.0.0.2", 1000, "ok")];
    let third = vec![hop(1, "10.0.0.1", 1000, "ok"), hop(2, "10.0.0.9", 2000, "ok")];
    assert_eq!(route_response_score(&first), 1);
    let best = better_route(None, first);
    let best = better_route(best, second);
    assert_eq!(best.as_ref().unwrap()[1].address, "*");
    let best = better_route(best, third);
    assert_eq!(route_response_score(best.as_ref().unwrap()), 2);
    assert_eq!(best.as_ref().unwrap()[1].address, "10.0.0.9");

    let none = better_route(None, vec![silent(1, "*")]);
    assert!(none.is_none());
}

#[test]
fn a_failed_trace_lists_the_command_errors() {
    match finish_trace_route(None, &vec![]) {
        Err(e) => assert_eq!(e, "Falha ao executar traceroute/tracepath: sem resposta dos comandos de rota"),
        Ok(_) => panic!("expected an error"),
    }
    let errors = vec!["a".to_string(), "b".to_string()];
    match finish_trace_route(Some(vec![]), &errors) {
        Err(e) => assert_eq!(e, "Falha ao executar traceroute/tracepath: a; b"),
        Ok(_) => panic!("expected an error"),
    }
    let ok = finish_trace_route(Some(vec![hop(1, "10.0.0.1", 1000, "ok"), silent(2, "*")]), &errors);
    assert_eq!(ok.unwrap().len(), 1);
}

#[test]
fn hop_status_thresholds() {
    assert_eq!(classify_hop_status(0, 0, false), "no_reply");
    assert_eq!(classify_hop_status(29_999, 0, true), "ok");
    assert_eq!(classify_hop_status(30_000, 0, true), "warning");
    assert_eq!(classify_hop_status(100_000, 5_000, true), "warning");
    assert_eq!(classify_hop_status(100_000, 5_001, true), "critical");
}

#[test]
fn ping_quality_labels() {
    assert_eq!(classify_quality(9_999, 0, 4_999), ("Excelente", "green"));
    assert_eq!(classify_quality(10_000, 1_000, 19_999), ("Bom", "green"));
    assert_eq!(classify_quality(99_999, 5_000, 50_000), ("Aceitável", "yellow"));
    assert_eq!(classify_quality(100_000, 0, 0), ("Ruim", "red"));
}

#[test]
fn traceroute_lines_with_terminal_escapes_are_read() {
    let raw = "traceroute to 8.8.8.8 (8.8.8.8), 30 hops max, 60 byte packets\n\u{1b}[1m 1  192.168.0.1  0.512 ms  0.480 ms  0.470 ms\u{1b}[0m\n 2  * * *\n";
    let hops = parse_traceroute_output(raw).unwrap();
    assert_eq!(hops.len(), 2);
    assert_eq!(hops[0].hop_number, 1);
    assert_eq!(hops[0].address, "192.168.0.1");
    assert_eq!(hops[0].min_ms, 470);
    assert_eq!(hops[0].avg_ms, 487);
    assert_eq!(hops[0].max_ms, 512);
    assert_eq!(hops[0].loss_pct, 0);
    assert_eq!(hops[0].status, "ok");
    assert_eq!(hops[1].address, "*");
    assert_eq!(hops[1].status, "no_reply");
    assert_eq!(hops[1].loss_pct, 100_000);
}

#[test]
fn a_hop_with_more_times_than_probes_is_not_read() {
    assert!(read_traceroute_output(" 1  10.0.0.1  1x ms 2x ms 5\n").is_none());
    assert!(read_traceroute_output(" 1  10.0.0.1  1x ms\n").is_some());
    let r = read_traceroute_output(" 1  10.0.0.1  1.5 ms\n").unwrap().unwrap();
    assert_eq!(r[0].avg_ms, 1_500);
}

#[test]
fn traceroute_without_hops_is_an_error() {
    assert!(parse_traceroute_output("traceroute to x\n").is_err());
}

// ---------------------------------------------------------------------------
// Ping

#[test]
fn ping_loss_and_hosts() {
    assert_eq!(loss_v(4, 3), 25_000);
    assert_eq!(loss_v(4, 0), 100_000);
    assert_eq!(extract_host("PING 8.8.8.8 (8.8.8.8) 56(84) bytes of data.\n"), "8.8.8.8");
    assert_eq!(extract_host("no header\n"), "");
    assert_eq!(extract_windows_host("Disparando 8.8.8.8 com 32 bytes de dados:\n"), "8.8.8.8");
    assert_eq!(extract_windows_host("Pinging [::1] with 32 bytes of data:\n"), "::1");
}

#[test]
fn a_failed_ping_reports_its_error() {
    match ping_outcome(false, "", "ping: unknown host x\n", 4) {
        Some(Err(e)) => assert_eq!(e, "Ping falhou: ping: unknown host x"),
        _ => panic!("expected an error"),
    }
    match ping_outcome(false, "", "  ", 4) {
        Some(Err(e)) => assert_eq!(e, "Ping falhou: host inalcançável ou bloqueado"),
        _ => panic!("expected an error"),
    }
    let out = "PING 10.0.0.9 (10.0.0.9) 56(84) bytes of data.\n\n--- 10.0.0.9 ping statistics ---\n4 packets transmitted, 0 received, 100% packet loss, time 3000ms\n";
    let r = ping_outcome(false, out, "", 4).unwrap().unwrap();
    assert_eq!(r.packets_sent, 4);
    assert_eq!(r.packets_received, 0);
    assert_eq!(r.loss_pct, 100_000);
    assert_eq!(r.host, "10.0.0.9");
}

#[test]
fn a_summary_with_more_replies_than_packets_is_not_read() {
    let out = "PING 10.0.0.9 (10.0.0.9) 56(84) bytes of data.\n2 packets transmitted, 3 received, 0% packet loss\n";
    assert!(!ping_counts_consistent(out, 4));
    assert!(ping_outcome(true, out, "", 4).is_none());
    let ok = "2 packets transmitted, 2 received, 0% packet loss\n";
    assert!(ping_counts_consistent(ok, 4));
    assert!(ping_outcome(true, ok, "", 4).is_some());
}

#[test]
fn a_ping_color_follows_its_quality() {
    let out = "PING 8.8.8.8 (8.8.8.8) 56(84) bytes of data.\n4 packets transmitted, 4 received, 0% packet loss, time 3004ms\nrtt min/avg/max/mdev = 11.0/12.0/14.0/1.0 ms\n";
    let r = parse_ping_output(out, 4).unwrap();
    assert_eq!(r.avg_ms, 12_000);
    assert_eq!(quality_color(&r.quality), r.quality_color);
}

// ---------------------------------------------------------------------------
// MTR

#[test]
fn mtr_hops_from_pings_and_routes() {
    let h = Hop {
        hop_number: 3,
        address: "10.0.0.1".to_string(),
        hostname: None,
        avg_ms: 5_000,
        min_ms: 2_000,
        max_ms: 9_000,
        loss_pct: 0,
        status: "ok".to_string(),
    };
    let m = mtr_hop_from_route(h);
    assert_eq!(m.hop, 3);
    assert_eq!(m.jitter_ms, 7_000);
    assert_eq!(m.best_ms, 2_000);

    let pinged = mtr_hop_from_ping(hop(4, "10.0.0.2", 1_000, "ok"), Some(ping_result(50_000, 3, "yellow")));
    assert_eq!(pinged.quality, "warning");
    assert_eq!(pinged.avg_ms, 50_000);

    let quiet = mtr_hop_from_ping(silent(5, "*"), Some(ping_result(1_000, 3, "green")));
    assert_eq!(quiet.host, "*");
    assert_eq!(quiet.loss_pct, 100_000);
    assert_eq!(quiet.quality, "critical");

    assert!(mtr_report(false, false, "").is_none());
    assert!(mtr_report(true, false, "").is_none());
    assert!(mtr_report(true, true, "nothing\n").is_none());
    let fallback = linux_mtr(None, Ok(vec![hop(1, "10.0.0.1", 1_000, "ok")])).unwrap();
    assert_eq!(fallback[0].host, "10.0.0.1");
    match linux_mtr(None, Err("x".to_string())) {
        Err(e) => assert_eq!(e, "x"),
        Ok(_) => panic!("expected an error"),
    }

    assert_eq!(mtr_ping_count(0), 1);
    assert_eq!(mtr_ping_count(7), 7);
    assert!(windows_mtr(vec![], vec![]).is_err());
    let w = windows_mtr(vec![hop(1, "10.0.0.1", 1_000, "ok")], vec![Some(ping_result(70_000, 3, "red"))]).unwrap();
    assert_eq!(w[0].quality, "critical");
}

// ---------------------------------------------------------------------------
// Gateways

#[test]
fn gateways_are_sorted_by_metric_with_a_warning() {
    let routes = parse_linux_routes(
        "default via 192.168.0.1 dev eth0 proto dhcp metric 600\ndefault via 10.0.0.1 dev wlan0 proto dhcp metric 50\n192.168.0.0/24 dev eth0\n",
    )
    .unwrap();
    assert_eq!(routes.len(), 2);
    assert_eq!(routes[0].2, 600);
    let mut gateways: Vec<Gateway> = Vec::new();
    let mut i = 0;
    for r in routes {
        let p = ping_result(2_000, 3, "green");
        gateways.push(gateway_entry(i, r, Some(&p)));
        i += 1;
    }
    let info = gateway_info(gateways);
    assert!(info.has_multiple);
    assert_eq!(info.gateways[0].ip, "10.0.0.1");
    assert!(info.gateways[0].is_primary);
    assert_eq!(info.gateways[0].latency_ms, Some(2_000));
    assert!(info.gateways[0].reachable);
    assert_eq!(info.gateways[1].metric, 600);
    let w = info.warning.unwrap();
    assert!(w.ends_with("Interface primária: wlan0 (10.0.0.1)"));
    assert!(w.starts_with("Gateway duplo detectado."));
}

#[test]
fn routes_without_a_metric_and_windows_routes() {
    let r = parse_linux_routes("default via 192.168.0.1 dev eth0\n").unwrap();
    assert_eq!(r[0].0, "192.168.0.1");
    assert_eq!(r[0].1, "eth0");
    assert_eq!(r[0].2, 100);
    assert!(parse_linux_routes("10.0.0.0/8 dev eth0\n").is_err());

    let w = parse_windows_routes(
        "          0.0.0.0          0.0.0.0      192.168.0.1    192.168.0.10     25\n          0.0.0.0          0.0.0.0         10.0.0.1        10.0.0.5     35\n",
    )
    .unwrap();
    assert_eq!(w.len(), 2);
    assert_eq!(w[0].2, 1);
    assert_eq!(w[1].2, 101);
    assert_eq!(w[1].0, "10.0.0.1");
    assert!(parse_windows_routes("nothing\n").is_err());
}

#[test]
fn a_single_gateway_has_no_warning() {
    let g = gateway_entry(0, ("10.0.0.1".to_string(), "eth0".to_string(), 100), None);
    assert!(!g.reachable);
    assert_eq!(g.latency_ms, None);
    let info = gateway_info(vec![g]);
    assert!(!info.has_multiple);
    assert!(info.warning.is_none());
}

// ---------------------------------------------------------------------------
// Ports

#[test]
fn listening_ports_are_sorted_and_unique() {
    let ss = "State  Recv-Q Send-Q Local Address:Port Peer Address:Port\nLISTEN 0 128 0.0.0.0:8080 0.0.0.0:*\nLISTEN 0 128 127.0.0.1:22 0.0.0.0:*\n";
    let ports = parse_listening_ports(ss, false).unwrap();
    assert_eq!(ports.len(), 2);
    assert_eq!(ports[0].port, 22);
    assert_eq!(ports[0].protocol, "tcp");
    assert_eq!(ports[0].state, "LISTEN");
    assert_eq!(ports[1].port, 8080);

    let with_netid = "Netid State Recv-Q Send-Q Local Address:Port Peer Address:Port\ntcp LISTEN 0 128 0.0.0.0:22 0.0.0.0:*\nudp UNCONN 0 0 127.0.0.1:22 0.0.0.0:*\n";
    let ports = parse_listening_ports(with_netid, false).unwrap();
    assert_eq!(ports.len(), 1);
    assert_eq!(ports[0].port, 22);
    assert_eq!(ports[0].protocol, "tcp");

    let netstat = "  TCP    0.0.0.0:445    0.0.0.0:0    LISTENING    4\n  TCP    0.0.0.0:135    0.0.0.0:0    LISTENING    900\n  UDP    [::]:445    *:*    LISTENING  1\n";
    let ports = parse_listening_ports(netstat, true).unwrap();
    assert_eq!(ports.len(), 2);
    assert_eq!(ports[0].port, 135);
    assert_eq!(ports[1].port, 445);
    assert_eq!(ports[1].protocol, "TCP");
}

#[test]
fn ss_tln4_output_gives_its_listening_port() {
    let out = "State Recv-Q Send-Q Local Address:Port Peer Address:Port\nLISTEN 0 128 0.0.0.0:22 0.0.0.0:*";
    let ports = parse_listening_ports(out, false).unwrap();
    assert_eq!(ports.len(), 1);
    assert_eq!(ports[0].port, 22);
    assert_eq!(ports[0].state, "LISTEN");
}

#[test]
fn port_services_and_scan_states() {
    let services = build_service_map();
    assert_eq!(services.len(), 47);
    assert_eq!(service_name(22, &services), "SSH");
    assert_eq!(service_name(27018, &services), "MongoDB Alt");
    assert_eq!(service_name(55443, &services), "App Alt");
    assert_eq!(service_name(60000, &services), "App Alt");
    assert_eq!(service_name(12345, &services), "TCP/12345");
    assert_eq!(service_name(0, &services), "TCP/0");
    let l = get_port_list();
    assert!(l.contains(&22));
    assert!(l.contains(&443));
    for p in &l {
        assert!(!service_name(*p, &services).starts_with("TCP/"), "{}", p);
    }

    let r = scan_result(80, ConnectOutcome::Open(1_500), &services);
    assert_eq!(r.state, "open");
    assert_eq!(r.response_ms, Some(1_500));
    assert_eq!(r.service, "HTTP");
    assert_eq!(scan_result(80, ConnectOutcome::TimedOut, &services).state, "filtered");
    assert_eq!(scan_result(80, ConnectOutcome::Refused, &services).state, "closed");
    let e = scan_result(80, ConnectOutcome::Unresolved, &services);
    assert_eq!(e.state, "ERRO");
    assert_eq!(e.response_ms, None);
}

// ---------------------------------------------------------------------------
// Network scan

#[test]
fn the_subnet_comes_from_the_routes_when_none_is_given() {
    let routes = "default via 192.168.0.1 dev eth0\n192.168.0.0/24 dev eth0 proto kernel scope link src 192.168.0.10\n";
    assert_eq!(detect_subnet(None, routes).unwrap(), ("192.168.0".to_string(), 24));
    assert!(detect_subnet(None, "default via 1.2.3.4 dev eth0\n").is_err());
    assert_eq!(scan_base(None, routes).unwrap(), "192.168.0");
    match scan_base(Some("10.1.2.0/16".to_string()), "") {
        Err(e) => assert_eq!(e, "No momento o scan de rede aceita apenas sub-redes /24"),
        Ok(_) => panic!("expected an error"),
    }
    let a = scan_addresses("10.1.2");
    assert_eq!(a.len(), 254);
    assert_eq!(a[0], "10.1.2.1");
    assert_eq!(a[253], "10.1.2.254");
}

#[test]
fn arp_tables_and_vendors() {
    let proc_arp = "IP address       HW type     Flags       HW address            Mask     Device\n192.168.0.1      0x1         0x2         b8:27:eb:12:34:56     *        eth0\n192.168.0.7      0x1         0x0         00:00:00:00:00:00     *        eth0\n";
    let t = parse_arp_table(proc_arp, false);
    assert_eq!(t.len(), 1);
    assert_eq!(lookup_mac(&t, "192.168.0.1"), Some("b8:27:eb:12:34:56".to_string()));
    assert_eq!(lookup_mac(&t, "192.168.0.7"), None);

    let win = "Interface: 192.168.0.10 --- 0x4\n  Internet Address      Physical Address      Type\n  192.168.0.1           00-50-56-aa-bb-cc     dynamic\n  192.168.0.255         ff-ff-ff-ff-ff-ff     static\n";
    let t = parse_arp_table(win, true);
    assert_eq!(t.len(), 1);
    assert_eq!(t[0].1, "00:50:56:aa:bb:cc");

    assert_eq!(identify_vendor("b8:27:eb:12:34:56"), Some("Raspberry Pi".to_string()));
    assert_eq!(identify_vendor("00:50:56:aa:bb:cc"), Some("VMware".to_string()));
    assert_eq!(identify_vendor("12:34:56:78:9a:bc"), None);
    assert_eq!(identify_vendor("b8:27"), None);
}

#[test]
fn scanned_hosts_are_kept_sorted_by_last_octet() {
    let arp = vec![("192.168.0.1".to_string(), "b8:27:eb:00:00:01".to_string())];
    let gw = Some("192.168.0.1".to_string());
    assert!(host_entry("192.168.0.50".to_string(), &gw, false, None, &arp, None, vec![]).is_none());
    let down_gateway = host_entry("192.168.0.1".to_string(), &gw, false, Some("router".to_string()), &arp, Some(1_000), vec![80])
        .unwrap();
    assert!(down_gateway.is_gateway);
    assert_eq!(down_gateway.hostname, None);
    assert_eq!(down_gateway.latency_ms, None);
    assert!(down_gateway.open_ports.is_empty());
    assert_eq!(down_gateway.vendor, Some("Raspberry Pi".to_string()));
    let up = host_entry("192.168.0.20".to_string(), &gw, true, Some("pc".to_string()), &arp, Some(3_000), vec![22])
        .unwrap();
    assert_eq!(up.mac, None);
    assert_eq!(up.open_ports, vec![22]);

    let hosts: Vec<NetworkHost> = vec![up, down_gateway];
    let r = finish_scan("192.168.0", hosts, 4_200);
    assert_eq!(r.subnet, "192.168.0.0/24");
    assert_eq!(r.total_hosts, 254);
    assert_eq!(r.hosts_up, 2);
    assert_eq!(r.hosts[0].ip, "192.168.0.1");
    assert_eq!(r.hosts[1].ip, "192.168.0.20");
}

// ---------------------------------------------------------------------------
// Interfaces

#[test]
fn interfaces_from_ip_text() {
    let out = "lo:\n    link/loopback 00:00:00:00:00:00\n    inet 127.0.0.1/8 scope host lo\neth0:\n    link/ether 52:54:00:12:34:56 brd ff:ff:ff:ff:ff:ff\n    inet 10.0.2.15/24 brd 10.0.2.255 scope global eth0\n    inet6 fe80::1/64 scope link\nwlan0 UP:\n    inet 192.168.1.5/24 scope global wlan0\n";
    let ifs = parse_ip_text(out).unwrap();
    assert_eq!(ifs.len(), 2);
    assert_eq!(ifs[0].name, "eth0");
    assert_eq!(ifs[0].ip, "10.0.2.15");
    assert_eq!(ifs[0].mac, "52:54:00:12:34:56");
    assert!(!ifs[0].is_up);
    assert_eq!(ifs[1].name, "wlan0 UP");
    assert_eq!(ifs[1].ip, "192.168.1.5");
    assert!(ifs[1].is_up);
    assert!(parse_ip_text("lo:\n").is_err());
}

#[test]
fn interfaces_from_ip_json_records() {
    let records = vec![
        IpLinkRecord {
            ifname: Some("lo".to_string()),
            flags: Some(vec![Some("UP".to_string())]),
            address: Some("00:00:00:00:00:00".to_string()),
            addr_info: None,
        },
        IpLinkRecord {
            ifname: Some("eth0".to_string()),
            flags: Some(vec![Some("BROADCAST".to_string()), None, Some("UP".to_string())]),
            address: None,
            addr_info: Some(vec![
                AddrInfoRecord { family: Some("inet6".to_string()), local: Some("fe80::1".to_string()) },
                AddrInfoRecord { family: Some("inet".to_string()), local: Some("10.0.0.5".to_string()) },
            ]),
        },
        IpLinkRecord { ifname: None, flags: None, address: None, addr_info: None },
    ];
    let ifs = interfaces_from_records(&records).unwrap();
    assert_eq!(ifs.len(), 2);
    assert_eq!(ifs[0].name, "eth0");
    assert_eq!(ifs[0].ip, "10.0.0.5");
    assert_eq!(ifs[0].mac, "");
    assert!(ifs[0].is_up);
    assert_eq!(ifs[1].name, "unknown");
    assert!(!ifs[1].is_up);

    match parse_ip_json(Err("EOF".to_string())) {
        Err(e) => assert_eq!(e, "Erro ao parsear JSON do ip: EOF"),
        Ok(_) => panic!("expected an error"),
    }
    assert!(parse_ip_json(Ok(vec![])).is_err());
}

#[test]
fn windows_interfaces_and_their_addresses() {
    assert_eq!(
        windows_ip_query("Wi-Fi 'casa'"),
        "Get-NetIPAddress -InterfaceAlias 'Wi-Fi ''casa''' -AddressFamily IPv4 | Select-Object -ExpandProperty IPAddress"
    );
    assert_eq!(windows_ip_from_output(true, " 192.168.0.4\r\n"), Some("192.168.0.4".to_string()));
    assert_eq!(windows_ip_from_output(false, "192.168.0.4"), None);
    let adapters = vec![
        NetAdapterRecord { name: Some("Ethernet".to_string()), mac_address: Some("AA-BB".to_string()), status: Some("Up".to_string()) },
        NetAdapterRecord { name: None, mac_address: None, status: Some("Disconnected".to_string()) },
    ];
    let ifs = windows_interfaces(Some(adapters), &vec![Some("192.168.0.4".to_string()), None]).unwrap();
    assert_eq!(ifs[0].name, "Ethernet");
    assert_eq!(ifs[0].ip, "192.168.0.4");
    assert!(ifs[0].is_up);
    assert_eq!(ifs[1].name, "unknown");
    assert_eq!(ifs[1].ip, "");
    assert!(!ifs[1].is_up);
    match windows_interfaces(None, &vec![]) {
        Err(e) => assert_eq!(e, "Nenhuma interface encontrada no Windows"),
        Ok(_) => panic!("expected an error"),
    }
}

// ---------------------------------------------------------------------------
// Interface counters

#[test]
fn interface_counters() {
    assert_eq!(to_mib_milli(1_048_576), 1_000);
    assert_eq!(to_mib_milli(524_288), 500);
    let short = "h1\nh2\neth0: 1 2 3 4 5 6 7 8 9 10\n";
    assert!(!proc_net_dev_complete(short));
    let lo_short = "h1\nh2\nlo: 1 2 3 4 5 6 7 8 9 10\neth0: 1 2 3 4 5 6 7 8 9 10 11 12 13 14 15 16\n";
    assert!(proc_net_dev_complete(lo_short));
    let s = parse_proc_net_dev(lo_short).unwrap();
    assert_eq!(s.len(), 1);
    assert_eq!(s[0].name, "eth0");
    assert_eq!(s[0].rx_errors, 3);
    assert_eq!(s[0].tx_errors, 11);
    assert_eq!(s[0].rx_dropped, 4);
    assert!(parse_proc_net_dev("h1\nh2\n").is_err());

    let list = AdapterStatsDoc::List(vec![AdapterCounts {
        name: Some("Ethernet".to_string()),
        received_bytes: Some(2_097_152),
        sent_bytes: None,
    }]);
    let w = windows_stats(list).unwrap();
    assert_eq!(w[0].rx_mb, 2_000);
    assert_eq!(w[0].tx_mb, 0);
    let single = windows_stats(AdapterStatsDoc::Single(AdapterCounts { name: None, received_bytes: None, sent_bytes: None }))
        .unwrap();
    assert_eq!(single[0].name, "unknown");
    match windows_stats(AdapterStatsDoc::List(vec![])) {
        Err(e) => assert_eq!(e, "Nenhuma estatística encontrada no Windows"),
        Ok(_) => panic!("expected an error"),
    }
    match windows_stats(AdapterStatsDoc::Unreadable) {
        Err(e) => assert_eq!(e, "Falha ao parsear estatísticas do Windows"),
        Ok(_) => panic!("expected an error"),
    }
}

// ---------------------------------------------------------------------------
// HTTP timing

#[test]
fn curl_timings_and_errors() {
    let t = curl_timing("https://x", true, "0.012\n0.030\n0.100\n0.250\n200\n", "").unwrap();
    assert_eq!(t.url, "https://x");
    assert_eq!(t.dns_s, 12);
    assert_eq!(t.connect_s, 30);
    assert_eq!(t.ttfb_s, 100);
    assert_eq!(t.total_s, 250);
    assert_eq!(t.status_code, 200);
    let z = curl_timing("https://x", true, "abc\n0.030\n0.100\n0.250\nxyz\n", "").unwrap();
    assert_eq!(z.dns_s, 0);
    assert_eq!(z.status_code, 0);
    match curl_timing("https://x", false, "", " timeout \n") {
        Err(e) => assert_eq!(e, "curl falhou para https://x: timeout"),
        Ok(_) => panic!("expected an error"),
    }
    match curl_timing("https://x", true, "1\n2\n", "") {
        Err(e) => assert_eq!(e, "Resposta inesperada do curl: 1\n2\n"),
        Ok(_) => panic!("expected an error"),
    }
    assert_eq!(get_http_targets(), vec!["https://google.com", "https://cloudflare.com", "https://github.com"]);
}

// ---------------------------------------------------------------------------
// Speed test

#[test]
fn speed_test_arithmetic() {
    assert_eq!(calc_mbps(1_250_000, 1_000), 10_000);
    assert_eq!(calc_mbps(1_250_000, 0), 0);
    assert_eq!(classify_speed(100_001, 0, 0).0, "Excelente");
    // 100.0005 Mbit/s is above 100; exactly 100 is not.
    assert_eq!(calc_mbps(25_000_125, 2_000), 100_001);
    assert_eq!(classify_speed(calc_mbps(25_000_125, 2_000), 0, 0).0, "Excelente");
    assert_eq!(calc_mbps(25_000_000, 2_000), 100_000);
    assert_eq!(classify_speed(calc_mbps(25_000_000, 2_000), 0, 0).0, "Bom");
    assert_eq!(classify_speed(5_000, 0, 200_001), ("Ruim".to_string(), "red".to_string()));
    assert_eq!(classify_speed(5_000, 0, 200_000).0, "Muito Lento");
    let data = generate_upload_data();
    assert_eq!(data.len(), 2_000_002);
    assert_eq!(&data[0..16], b"KingNetworkTools");
    assert_eq!(data[45], 0);
    assert_eq!(data[46], b'\n');
    assert_eq!(data[47 + 45], 1);

    assert!(!counts_toward_download(1_999));
    assert!(counts_toward_download(2_000));
    assert!(upload_accepted(204));
    assert!(!upload_accepted(500));
    let p = download_progress(1_000, 0);
    assert_eq!(p.phase, "download");
    assert_eq!(p.progress_pct, 8);
    let p = download_progress(12_000, 12_500_000);
    assert_eq!(p.progress_pct, 99);
    assert_eq!(p.current_mbps, 10_000);
    let u = upload_progress(100, 62_500);
    assert_eq!(u.current_mbps, 1_000);
    assert_eq!(u.progress_pct, 1);

    match download_outcome(0) {
        Err(e) => assert_eq!(e, "Nenhum dado baixado"),
        Ok(_) => panic!("expected an error"),
    }
    assert_eq!(download_outcome(12_500_000).unwrap(), 10_000);
    assert_eq!(upload_outcome(1_000_000).unwrap(), 1_000);

    match speedtest_outcome(Ok((12_000, 1_000)), Err("Nenhum dado baixado".to_string()), Ok(1)) {
        Err(e) => assert_eq!(e, "Download: Nenhum dado baixado"),
        Ok(_) => panic!("expected an error"),
    }
    let r = speedtest_outcome(Err("x".to_string()), Ok(60_000), Err("y".to_string())).unwrap();
    assert_eq!(r.latency_ms, 0);
    assert_eq!(r.upload_mbps, 0);
    assert_eq!(r.quality, "Bom");
    assert_eq!(r.server, "Cloudflare (GRU)");
}

// ---------------------------------------------------------------------------
// Numbers, thresholds and the report

#[test]
fn numbers_and_thresholds() {
    assert_eq!(decimal_string(0), "0");
    assert_eq!(decimal_string(1234), "1234");
    assert_eq!(min_avg_max(&vec![3_000, 1_000, 2_000]), (1_000, 2_000, 3_000));
    assert_eq!(min_avg_max(&vec![]), (0, 0, 0));
    assert_eq!(classify_loss(0), "Sem perda");
    assert_eq!(classify_loss(2_000), "Perda baixa");
    assert_eq!(classify_loss(2_001), "Perda alta");
    assert_eq!(quality_color("Aceitável"), "yellow");
    assert_eq!(quality_color("ok"), "green");
    assert_eq!(quality_color("Ruim"), "red");
    let t = get_thresholds();
    assert_eq!(t.excellent_max, 4_000);
    assert_eq!(t.good_max, 29_000);
    assert_eq!(t.acceptable_max, 79_000);
    assert_eq!(t.loss_low_max, 2_000);
}

fn tenths(n: u64) -> String {
    let mut s = String::new();
    push_tenths(&mut s, n);
    s
}

#[test]
fn losses_are_written_as_the_nearest_f32_is() {
    for n in [0u64, 1, 49, 50, 250, 350, 450, 750, 12_450, 12_500, 25_000, 33_333, 99_950, 100_000, 123_456_789] {
        let expected = format!("{:.1}", (format!("{}.{:03}", n / 1000, n % 1000)).parse::<f32>().unwrap());
        assert_eq!(tenths(n), expected, "{}", n);
    }
    assert_eq!(tenths(350), "0.3");
    assert_eq!(tenths(250), "0.2");
    assert_eq!(tenths(750), "0.8");
}

#[test]
fn the_quick_diagnosis_writes_the_loss_as_printed() {
    let ping = "Host: 8.8.8.8\n| 10       | 9         | 1        | 0.35%  | 1.0 ms | 2.0 ms | 3.0 ms | 1.0 ms | Bom |";
    let r = report_at("", "", "", ping, "", "", "", "", "", "", "", "", "", "01/01/2025 10:00:00", "h");
    assert!(r.contains("Diagnostico rapido: Perda de pacotes detectada (0.3%)\n"));
}

#[test]
fn a_slow_service_caps_the_general_quality() {
    let s = extract_ping_summary("avg 1.0/2.5/3.0 ms\n0% packet loss\n");
    assert_eq!(s.avg_ms, Some(2_500));
    assert_eq!(s.loss_pct, Some(0));
    assert_eq!(extract_general_quality(&s, false), "Excelente");
    assert_eq!(extract_general_quality(&s, true), "Aceitável");
    let lossy = extract_ping_summary("avg 1.0/2.5/3.0 ms\n25% packet loss\n");
    assert_eq!(extract_general_quality(&lossy, false), "Ruim");
    assert_eq!(extract_worst_hop("1 10.0.0.1 5 ms\n2 10.0.0.2 150 ms\n"), Some("2".to_string()));
    assert_eq!(extract_worst_hop("1 10.0.0.1 5 ms\n"), None);
}

#[test]
fn the_report_names_the_host_and_dates() {
    let r = report_at("i", "p", "d", "", "", "", "", "", "", "", "", "ini", "fim", "01/02/2025 10:00:00", "maquina");
    assert!(r.starts_with("KINGNETWORKTOOLS - RELATORIO DE DIAGNOSTICO\n"));
    assert!(r.contains("Data: 01/02/2025 10:00:00\n"));
    assert!(r.contains("Inicio da coleta: ini\n"));
    assert!(r.contains("Fim da coleta: fim\n"));
    assert!(r.contains("Host local: maquina\n"));
    assert!(r.ends_with("Gerado por KingNetworkTools em 01/02/2025 10:00:00\n"));
    let with_ping = report_at("", "", "", "  ping text \n", "", "", "", "", "", "", "", "", "", "now", "h");
    let rule = "------------------------------------------------------------\n";
    assert!(with_ping.contains(&format!("6. Ping do alvo\n{}ping text\n\n", rule)));
    assert!(with_ping.contains(&format!("11. Estatisticas de interface\n{}\n\n", rule)));
    let g = generate_report("i", "p", "d", "", "", "", "", "", "", "", "", "ini", "fim", "maquina");
    assert!(g.contains("Host local: maquina\n"));
    assert!(g.starts_with("KINGNETWORKTOOLS - RELATORIO DE DIAGNOSTICO\n"));
}

// ---------------------------------------------------------------------------
// What follows a pattern match, on given match results

fn caps(groups: &[Option<&str>]) -> Option<Vec<Option<Vec<char>>>> {
    Some(groups.iter().map(|g| g.map(|s| s.chars().collect())).collect())
}

fn chars(s: &str) -> Vec<char> {
    s.chars().collect()
}

#[test]
fn tracepath_hops_from_given_groups() {
    let h = tracepath_hop(&caps(&[Some(" 2:  10.0.0.1  1.500ms"), Some("2"), Some("10.0.0.1"), Some("1.500ms")]))
        .unwrap();
    assert_eq!(h.hop_number, 2);
    assert_eq!(h.address, "10.0.0.1");
    assert_eq!(h.avg_ms, 1_500);
    assert_eq!(h.loss_pct, 0);
    assert_eq!(h.status, "ok");
    let quiet = tracepath_hop(&caps(&[Some(" 3:  no reply"), Some("3"), Some("no reply"), None])).unwrap();
    assert_eq!(quiet.address, "*");
    assert_eq!(quiet.loss_pct, 100_000);
    assert_eq!(quiet.status, "no_reply");
    assert!(tracepath_hop(&None).is_none());
}

#[test]
fn tracert_hops_from_numbered_lines() {
    let h = tracert_hop(&chars("  1    <1 ms    <1 ms    <1 ms  192.168.1.1")).unwrap();
    assert_eq!(h.hop_number, 1);
    assert_eq!(h.address, "192.168.1.1");
    assert_eq!(h.avg_ms, 500);
    let t = tracert_hop(&chars("  2     *        *        *     Esgotado o tempo limite do pedido.")).unwrap();
    assert_eq!(t.address, "*");
    assert_eq!(t.status, "no_reply");
}

#[test]
fn ping_summaries_from_given_matches() {
    let loss = caps(&[Some("4 packets transmitted, 3 received"), Some("4"), Some("packets transmitted"), Some("3"), Some("received")]);
    let rtt = caps(&[Some("rtt min/avg/max/mdev = 1.0/2.0/3.0/0.5"), Some("1.0"), Some("2.0"), Some("3.0"), Some("0.5")]);
    let a = linux_summary_step(new_acc(4), &loss, &rtt, 4);
    assert_eq!(a.sent, 4);
    assert_eq!(a.received, 3);
    assert_eq!(a.loss, 25_000);
    assert_eq!(a.avg, 2_000);
    assert_eq!(a.jitter, 500);
    let r = linux_ping_result(&chars("8.8.8.8"), a, 4);
    assert_eq!(r.host, "8.8.8.8");
    assert_eq!(r.quality, "Ruim");

    let w = windows_summary_step(new_acc(4), &None, &None, &None, &None, &chars("Resposta de 8.8.8.8: bytes=32 tempo=10ms TTL=118"), 4);
    let w = windows_summary_step(w, &None, &None, &None, &None, &chars("Resposta de 8.8.8.8: bytes=32 tempo=20ms TTL=118"), 4);
    assert_eq!(w.samples, vec![10_000, 20_000]);
    let r = windows_ping_result(&chars("8.8.8.8"), w);
    assert_eq!(r.min_ms, 10_000);
    assert_eq!(r.max_ms, 20_000);
    assert_eq!(r.avg_ms, 15_000);
    assert_eq!(r.packets_received, 2);
    assert_eq!(r.packets_sent, 4);
    assert_eq!(r.loss_pct, 50_000);
    assert_eq!(r.jitter_ms, 5_000);
}

#[test]
fn texts_read_as_floats() {
    for t in ["1", "1.5", "+.5", "-5.", "1e5", "1.E-3", "inf", "-Infinity", "NaN"] {
        assert!(is_number_v(&chars(t)), "{}", t);
    }
    for t in ["", ".", "e5", "1e", "1e+", "1.2.3", "10.0.0.1", "5ms", "infinit", "1_0"] {
        assert!(!is_number_v(&chars(t)), "{}", t);
    }
}

#[test]
fn decimals_with_an_exponent_read_as_thousandths() {
    let read = |t: &str| parse_milli_v(&chars(t));
    assert_eq!(read("12.345"), Some(12_345));
    assert_eq!(read("+0.5"), Some(500));
    assert_eq!(read(".25"), Some(250));
    assert_eq!(read("7."), Some(7_000));
    assert_eq!(read("1e2"), Some(100_000));
    assert_eq!(read("1.5E-3"), Some(1));
    assert_eq!(read("+2.5e+1"), Some(25_000));
    assert_eq!(read("25e-4"), Some(2));
    assert_eq!(read("3e-9"), Some(0));
    assert_eq!(read("0e40"), Some(0));
    assert_eq!(read("1e99999999999999999999999"), None);
    assert_eq!(read("2e-99999999999999999999999"), Some(0));
    assert_eq!(read("1e40"), None);
    assert_eq!(read("18446744073709551.615"), Some(u64::MAX));
    assert_eq!(read("18446744073709551.616"), None);
    for t in ["", "-1", "inf", "NaN", "1e", "e3", "1.2.3", ".", "1e+", "1,5"] {
        assert_eq!(read(t), None, "{}", t);
    }
}

#[test]
fn digits_cut_past_the_third_decimal_are_reported() {
    assert_eq!(read_milli_v(&chars("100.0004")), Some((100_000, true)));
    assert_eq!(read_milli_v(&chars("100.0000")), Some((100_000, false)));
    assert_eq!(read_milli_v(&chars("1000004e-4")), Some((100_000, true)));
    assert_eq!(read_milli_v(&chars("3e-9")), Some((0, true)));
    assert_eq!(extract_worst_hop("1 10.0.0.1 100.0004 ms\n"), Some("1".to_string()));
    assert_eq!(extract_worst_hop("1 10.0.0.1 100.000 ms\n"), None);
}
