use linux_programming::file_system::parser::etc::fstab::{
    parse_etc_fstab, parse_etc_fstab_with_error_handling,
};
use linux_programming::file_system::parser::proc::net::ipv6_route::{route, ProcError};
use linux_programming::file_system::parser::proc::net::route::parse_with_error_handling;
use linux_programming::file_system::parser::proc::net::route::{
    default_route_network_interface, parse_proc_net_route,
};

const PROC_NET_ROUTE: &str = "Iface\tDestination\tGateway \tFlags\tRefCnt\tUse\tMetric\tMask\t\tMTU\tWindow\tIRTT                                                       \n\
wlp4s0\t00000000\t0112A8C0\t0003\t0\t0\t600\t00000000\t0\t0\t0                                                                               \n\
docker0\t000011AC\t00000000\t0001\t0\t0\t0\t0000FFFF\t0\t0\t0                                                                               \n\
wlp4s0\t0012A8C0\t00000000\t0001\t0\t0\t600\t00FFFFFF\t0\t0\t0                                                                               \n";

#[test]
fn test_parse_proc_net_route() {
    let routes = parse_proc_net_route(PROC_NET_ROUTE);
    assert_eq!(routes.len(), 3);
    assert_eq!(routes[0].iface, "wlp4s0");
    assert_eq!(routes[0].destination, 0);
    assert_eq!(routes[0].gateway, 0x0112_A8C0);
    assert_eq!(routes[0].gateway.to_be_bytes(), [0x01, 0x12, 0xA8, 0xC0]);
    assert_eq!(routes[1].iface, "docker0");
    assert_eq!(routes[1].destination, 0x11AC);
    assert_eq!(routes[2].gateway, 0);
}

#[test]
fn default_route_is_first_route_to_anywhere_through_a_gateway() {
    let routes = parse_proc_net_route(PROC_NET_ROUTE);
    assert_eq!(default_route_network_interface(&routes), "wlp4s0");
}

#[test]
fn default_route_skips_routes_without_gateway() {
    let content = "Iface\tDestination\tGateway\n\
                   lo\t00000000\t00000000\n\
                   eth1\t0000000A\t01010101\n\
                   eth0\t00000000\t0101A8C0\n\
                   eth2\t00000000\t0201A8C0\n";
    let routes = parse_proc_net_route(content);
    assert_eq!(routes.len(), 4);
    assert_eq!(default_route_network_interface(&routes), "eth0");
}

#[test]
fn parse_proc_net_route_of_header_only_is_empty() {
    assert_eq!(parse_proc_net_route("Iface\tDestination\tGateway\n").len(), 0);
    assert_eq!(parse_proc_net_route("").len(), 0);
}

#[test]
fn route_reads_every_column() {
    let entries = route(PROC_NET_ROUTE).unwrap();
    assert_eq!(entries.len(), 3);
    let e = &entries[0];
    assert_eq!(e.iface, "wlp4s0");
    assert_eq!(e.destination, 0);
    assert_eq!(e.gateway, 0x0112_A8C0);
    assert_eq!(e.flags, 3);
    assert_eq!(e.refcnt, 0);
    assert_eq!(e.use_count, 0);
    assert_eq!(e.metrics, 600);
    assert_eq!(e.mask, 0);
    assert_eq!(e.mtu, 0);
    assert_eq!(e.window, 0);
    assert_eq!(e.irtt, 0);
    assert_eq!(entries[1].mask, 0x0000_FFFF);
    assert_eq!(entries[2].mask, 0x00FF_FFFF);
}

#[test]
fn route_reads_hex_flags_and_decimal_counts() {
    let content = "header\r\neth0 +0A 1 00FF 65535 +12 4294967295 ffffffff 1500 0 7\r\n";
    let entries = route(content).unwrap();
    assert_eq!(entries.len(), 1);
    let e = &entries[0];
    assert_eq!(e.destination, 10);
    assert_eq!(e.gateway, 1);
    assert_eq!(e.flags, 0xff);
    assert_eq!(e.refcnt, 65535);
    assert_eq!(e.use_count, 12);
    assert_eq!(e.metrics, u32::MAX);
    assert_eq!(e.mask, u32::MAX);
    assert_eq!(e.mtu, 1500);
    assert_eq!(e.irtt, 7);
}

#[test]
fn route_reports_missing_columns() {
    let content = "header\neth0 00000000 00000000 0001 0 0 0 00000000 0 0\n";
    assert_eq!(route(content).err(), Some(ProcError::Incomplete));
    assert_eq!(route("header\n\n").err(), Some(ProcError::Incomplete));
}

#[test]
fn route_reports_fields_that_are_not_numbers() {
    let overflow = "header\neth0 0 0 10000 0 0 0 0 0 0 0\n";
    assert_eq!(route(overflow).err(), Some(ProcError::InvalidField));
    let not_hex = "header\neth0 0 0 1 0 0 0 0xff 0 0 0\n";
    assert_eq!(route(not_hex).err(), Some(ProcError::InvalidField));
    let sign_only = "header\neth0 + 0 1 0 0 0 0 0 0 0\n";
    assert_eq!(route(sign_only).err(), Some(ProcError::InvalidField));
    let negative = "header\neth0 0 0 1 -1 0 0 0 0 0 0\n";
    assert_eq!(route(negative).err(), Some(ProcError::InvalidField));
}

#[test]
fn route_reports_the_first_bad_line() {
    let content = "header\n\
                   eth0 0 0 1 0 0 0 0 0 0 0\n\
                   eth1 0 0 1 x 0 0 0 0 0 0\n\
                   eth2 0 0 1\n";
    assert_eq!(route(content).err(), Some(ProcError::InvalidField));
    let content = "header\n\
                   eth2 0 0 1\n\
                   eth1 0 0 1 x 0 0 0 0 0 0\n";
    assert_eq!(route(content).err(), Some(ProcError::Incomplete));
}

#[test]
fn route_of_header_only_is_empty() {
    assert_eq!(route("Iface Destination\n").unwrap().len(), 0);
    assert_eq!(route("").unwrap().len(), 0);
}

const FSTAB: &str = "# /etc/fstab: static file system information.\n\
# <file system> <dir> <type> <options> <dump> <pass>\n\
UUID=4d1f2bfb-4c52-4a5b-9b2e-1e5c0a7f3d21 /         ext4    rw,relatime 0 1\n\
UUID=5E2C-1A2B                            /boot     vfat    rw,relatime 0 2\n\
#UUID=dead /  ext4 rw 0 1\n";

#[test]
fn test_parse_etc_fstab() {
    assert_eq!(
        parse_etc_fstab(FSTAB),
        vec!["4d1f2bfb-4c52-4a5b-9b2e-1e5c0a7f3d21".to_string()]
    );
}

#[test]
fn test_parse_etc_fstab_with_error_handling() {
    assert_eq!(
        parse_etc_fstab_with_error_handling(FSTAB),
        Some("4d1f2bfb-4c52-4a5b-9b2e-1e5c0a7f3d21".to_string())
    );
}

#[test]
fn fstab_uuid_is_after_the_first_equals_sign() {
    let content = "LABEL=root=disk\t/\text4\n/dev/sda2 /home ext4\n";
    assert_eq!(parse_etc_fstab(content), vec!["root=disk".to_string()]);
    assert_eq!(
        parse_etc_fstab_with_error_handling(content),
        Some("root=disk".to_string())
    );
}

#[test]
fn fstab_lists_every_root_entry() {
    let content = "UUID=a / ext4\nUUID=b /mnt ext4\nPARTUUID=c / xfs\n";
    assert_eq!(parse_etc_fstab(content), vec!["a".to_string(), "c".to_string()]);
    assert_eq!(
        parse_etc_fstab_with_error_handling(content),
        Some("a".to_string())
    );
}

#[test]
fn fstab_error_handling_stops_at_root_without_equals_sign() {
    let content = "/dev/sda1 / ext4\nUUID=b / ext4\n";
    assert_eq!(parse_etc_fstab_with_error_handling(content), None);
    assert_eq!(parse_etc_fstab_with_error_handling("# nothing\n"), None);
    assert_eq!(parse_etc_fstab("# nothing\n"), Vec::<String>::new());
}

#[test]
fn fstab_error_handling_does_not_read_past_the_root_entry() {
    let content = "UUID=x / ext4\nbroken\n";
    assert_eq!(
        parse_etc_fstab_with_error_handling(content),
        Some("x".to_string())
    );
}

#[test]
fn test_default_route_network_interface() {
    assert_eq!(
        parse_with_error_handling::default_route_network_interface(PROC_NET_ROUTE),
        Some("wlp4s0".to_string())
    );
}

#[test]
fn default_route_with_error_handling_stops_early() {
    let content = "Iface Destination Gateway\n\
                   lo 00000000 00000000\n\
                   eth9 0000000A zz\n\
                   eth0 00000000 0101A8C0\n";
    assert_eq!(parse_with_error_handling::default_route_network_interface(content), None);
    let content = "Iface Destination Gateway\n\
                   eth1 0000000A 01010101\n\
                   broken\n";
    assert_eq!(
        parse_with_error_handling::default_route_network_interface(content),
        Some("eth1".to_string())
    );
    assert_eq!(
        parse_with_error_handling::default_route_network_interface("Iface\nlo 0 0\n"),
        None
    );
}
