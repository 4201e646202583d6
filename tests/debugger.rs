use dioptase::debugger::{
    add_watchpoint, build_labels_by_addr, format_addr_list, resolve_label_or_addr, parse_addr, parse_watch_kind, reg_by_name, remove_watchpoint, watch_access_label,
    watch_kind_label, RegName, WatchAccess, WatchKind, Watchpoint,
};

#[test]
fn parse_addr_accepts_hex_and_dec() {
    assert_eq!(parse_addr("0x10"), Some(0x10));
    assert_eq!(parse_addr("0X20"), Some(0x20));
    assert_eq!(parse_addr("10"), Some(10));
    assert_eq!(parse_addr("FF"), Some(0xFF));
    assert_eq!(parse_addr("not-a-number"), None);
}

#[test]
fn watchpoint_merge_upgrades_kind() {
    let mut list = Vec::new();
    add_watchpoint(&mut list, 0x10, WatchKind::Read);
    let merged = add_watchpoint(&mut list, 0x10, WatchKind::Write);
    assert_eq!(merged, WatchKind::ReadWrite);
    assert_eq!(list.len(), 1);
}

#[test]
fn parse_watch_kind_variants() {
    assert_eq!(parse_watch_kind("r"), Some(WatchKind::Read));
    assert_eq!(parse_watch_kind("w"), Some(WatchKind::Write));
    assert_eq!(parse_watch_kind("rw"), Some(WatchKind::ReadWrite));
    assert_eq!(parse_watch_kind("wr"), Some(WatchKind::ReadWrite));
    assert_eq!(parse_watch_kind("x"), None);
}

#[test]
fn parse_addr_edge_cases() {
    assert_eq!(parse_addr("  0x1f  "), Some(0x1F));
    assert_eq!(parse_addr("4294967295"), Some(u32::MAX));
    assert_eq!(parse_addr("4294967296"), None);
    assert_eq!(parse_addr("0x100000000"), None);
    assert_eq!(parse_addr("+12"), Some(12));
    assert_eq!(parse_addr("0x"), None);
    assert_eq!(parse_addr(""), None);
    assert_eq!(parse_addr("abc"), Some(0xABC));
}

#[test]
fn watchpoints_add_and_remove() {
    let mut list: Vec<Watchpoint> = Vec::new();
    assert_eq!(add_watchpoint(&mut list, 0x20, WatchKind::Write), WatchKind::Write);
    assert_eq!(add_watchpoint(&mut list, 0x20, WatchKind::Write), WatchKind::Write);
    assert_eq!(add_watchpoint(&mut list, 0x30, WatchKind::Read), WatchKind::Read);
    assert_eq!(list.len(), 2);
    assert!(remove_watchpoint(&mut list, 0x20));
    assert!(!remove_watchpoint(&mut list, 0x20));
    assert_eq!(list, vec![Watchpoint { addr: 0x30, kind: WatchKind::Read }]);
}

#[test]
fn labels_of_kinds_and_accesses() {
    assert_eq!(watch_kind_label(WatchKind::Read), "r");
    assert_eq!(watch_kind_label(WatchKind::Write), "w");
    assert_eq!(watch_kind_label(WatchKind::ReadWrite), "rw");
    assert_eq!(watch_access_label(WatchAccess::Read), "read");
    assert_eq!(watch_access_label(WatchAccess::Write), "write");
}

#[test]
fn register_names() {
    assert_eq!(reg_by_name("PC"), Some(RegName::Pc));
    assert_eq!(reg_by_name("sp"), Some(RegName::Gpr(31)));
    assert_eq!(reg_by_name("ksp"), Some(RegName::Cr(8)));
    assert_eq!(reg_by_name("mbo"), Some(RegName::Cr(11)));
    assert_eq!(reg_by_name("r7"), Some(RegName::Gpr(7)));
    assert_eq!(reg_by_name("r32"), None);
    assert_eq!(reg_by_name("cr11"), Some(RegName::Cr(11)));
    assert_eq!(reg_by_name("cr12"), None);
    assert_eq!(reg_by_name("xyz"), None);
}

#[test]
fn address_lists_and_labels() {
    assert_eq!(format_addr_list(&vec![]), "");
    assert_eq!(format_addr_list(&vec![0x10, 0xABCDEF01]), "00000010, ABCDEF01");
    let labels = vec![(b"main".to_vec(), 0x400), (b"loop".to_vec(), 0x410), (b"main".to_vec(), 0x800)];
    assert_eq!(resolve_label_or_addr("0x20", &labels), Ok(vec![0x20]));
    assert_eq!(resolve_label_or_addr("main", &labels), Ok(vec![0x400, 0x800]));
    assert_eq!(resolve_label_or_addr("loop", &labels), Ok(vec![0x410]));
    assert_eq!(resolve_label_or_addr("nope", &labels), Err("Unknown label nope".to_string()));
}

#[test]
fn labels_grouped_by_address() {
    let labels = vec![(b"a".to_vec(), 0x400), (b"b".to_vec(), 0x410), (b"c".to_vec(), 0x400)];
    let groups = build_labels_by_addr(&labels);
    assert_eq!(groups.len(), 2);
    assert_eq!(groups[0], (0x400, vec![b"a".to_vec(), b"c".to_vec()]));
    assert_eq!(groups[1], (0x410, vec![b"b".to_vec()]));
    assert!(build_labels_by_addr(&vec![]).is_empty());
}
