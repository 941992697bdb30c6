use landiag::ip::{parse_ipv4, format_ipv4, is_private_ip, ipv4_from_value, Ipv4Address};
use landiag::oui::OuiDb;
use landiag::scan::{
    MacAddress, format_mac, build_arp_request, parse_arp_reply, get_manufacturer, make_device,
    subnet_base_value, nth_address, pow2_u64, Device, ScanError, DeviceTable,
};

fn mac(b0: u8, b1: u8, b2: u8, b3: u8, b4: u8, b5: u8) -> MacAddress {
    MacAddress { b0, b1, b2, b3, b4, b5 }
}

#[test]
fn ipv4_parse_and_format() {
    let a = parse_ipv4("192.168.1.50").unwrap();
    assert_eq!((a.o0, a.o1, a.o2, a.o3), (192, 168, 1, 50));
    assert_eq!(format_ipv4(&a), "192.168.1.50");
    assert_eq!(a.value(), 0xC0A80132);

    assert_eq!(format_ipv4(&parse_ipv4("0.0.0.0").unwrap()), "0.0.0.0");
    assert_eq!(format_ipv4(&parse_ipv4("255.255.255.255").unwrap()), "255.255.255.255");

    for bad in ["", "1.2.3", "1.2.3.4.5", "256.1.1.1", "01.2.3.4", "1..2.3", "a.b.c.d",
        " 1.2.3.4", "1.2.3.4 ", "-1.2.3.4"] {
        assert!(parse_ipv4(bad).is_none(), "{bad:?} should not parse");
    }
}

#[test]
fn ipv4_value_round_trip() {
    for v in [0u32, 1, 0x0A00_0001, 0xC0A8_0101, u32::MAX] {
        assert_eq!(ipv4_from_value(v).value(), v);
    }
}

#[test]
fn mac_renders_colon_hex_lowercase() {
    assert_eq!(format_mac(&mac(0x00, 0x1A, 0x2B, 0xAA, 0xBB, 0xCC)), "00:1a:2b:aa:bb:cc");
    assert_eq!(format_mac(&mac(0xFF, 0xFF, 0xFF, 0xFF, 0xFF, 0xFF)), "ff:ff:ff:ff:ff:ff");
    assert_eq!(format_mac(&mac(0, 0, 0, 0, 0, 0)), "00:00:00:00:00:00");
}

#[test]
fn arp_request_frame_layout() {
    let src_mac = mac(0x02, 0x42, 0xA1, 0xB2, 0xC3, 0xD4);
    let src_ip = parse_ipv4("192.168.1.10").unwrap();
    let target = parse_ipv4("192.168.1.77").unwrap();
    let f = build_arp_request(&src_mac, &src_ip, &target);
    assert_eq!(f.len(), 42);
    assert_eq!(&f[0..6], &[0xff; 6]);
    assert_eq!(&f[6..12], &[0x02, 0x42, 0xA1, 0xB2, 0xC3, 0xD4]);
    assert_eq!(&f[12..14], &[0x08, 0x06]);
    assert_eq!(&f[14..22], &[0x00, 0x01, 0x08, 0x00, 0x06, 0x04, 0x00, 0x01]);
    assert_eq!(&f[22..28], &[0x02, 0x42, 0xA1, 0xB2, 0xC3, 0xD4]);
    assert_eq!(&f[28..32], &[192, 168, 1, 10]);
    assert_eq!(&f[32..38], &[0x00; 6]);
    assert_eq!(&f[38..42], &[192, 168, 1, 77]);
}

#[test]
fn arp_reply_parsing() {
    let src_mac = mac(0x02, 0x42, 0xA1, 0xB2, 0xC3, 0xD4);
    let src_ip = parse_ipv4("192.168.1.10").unwrap();
    let target = parse_ipv4("192.168.1.77").unwrap();

    // A request is not a reply.
    let request = build_arp_request(&src_mac, &src_ip, &target);
    assert!(parse_arp_reply(&request).is_none());

    // Flip the operation to Reply: the sender fields come back out.
    let mut reply = request.clone();
    reply[21] = 0x02;
    let (sender_ip, sender_mac) = parse_arp_reply(&reply).unwrap();
    assert_eq!(format_ipv4(&sender_ip), "192.168.1.10");
    assert_eq!(sender_mac, src_mac);

    // Wrong ethertype, or a short frame, yields nothing.
    let mut wrong = reply.clone();
    wrong[12] = 0x08;
    wrong[13] = 0x00;
    assert!(parse_arp_reply(&wrong).is_none());
    assert!(parse_arp_reply(&reply[..41].to_vec()).is_none());
}

#[test]
fn subnet_arithmetic() {
    assert_eq!(pow2_u64(0), 1);
    assert_eq!(pow2_u64(8), 256);
    assert_eq!(pow2_u64(32), 1u64 << 32);

    let ip = parse_ipv4("192.168.1.77").unwrap();
    let base = subnet_base_value(&ip, 24);
    assert_eq!(ipv4_from_value(base).value(), parse_ipv4("192.168.1.0").unwrap().value());

    // The sweep enumerates every address of the /24, then stops.
    assert_eq!(format_ipv4(&nth_address(base, 24, 0).unwrap()), "192.168.1.0");
    assert_eq!(format_ipv4(&nth_address(base, 24, 77).unwrap()), "192.168.1.77");
    assert_eq!(format_ipv4(&nth_address(base, 24, 255).unwrap()), "192.168.1.255");
    assert!(nth_address(base, 24, 256).is_none());

    let wide = subnet_base_value(&parse_ipv4("10.37.200.13").unwrap(), 8);
    assert_eq!(format_ipv4(&ipv4_from_value(wide)), "10.0.0.0");
}

#[test]
fn oui_embedded_lookup() {
    let db = OuiDb::new_embedded();
    assert_eq!(db.lookup("00:1a:2b:11:22:33").as_deref(), Some("Ayecom Technology Co. Ltd"));
    // Lookup lowercases its input before matching.
    assert_eq!(db.lookup("00:1A:2B:11:22:33").as_deref(), Some("Ayecom Technology Co. Ltd"));
    assert_eq!(db.lookup("B8:27:EB:00:00:01").as_deref(), Some("Raspberry Pi Foundation"));
    assert_eq!(db.lookup("de:ad:be:ef:00:01"), None);
    // Too short to carry a prefix.
    assert_eq!(db.lookup("00:1a:2"), None);
}

#[test]
fn oui_csv_parsing_rules() {
    let db = OuiDb::from_csv(
        "registry,assignment,organization_name\nMA-L, AA-BB-CC , Vendor One \nbad line\nMA-L,DD-EE-FF,Vendor Two,extra column\nMA-L,AA-BB-CC,Vendor Three\n",
    );
    // Fields are trimmed; dashes become colons; letters lowercase.
    // The later line for the same prefix wins, as a map insert would.
    assert_eq!(db.lookup("aa:bb:cc:00:00:00").as_deref(), Some("Vendor Three"));
    // Extra columns are carried, short lines skipped.
    assert_eq!(db.lookup("dd:ee:ff:12:34:56").as_deref(), Some("Vendor Two"));
    // The header is not an entry.
    assert_eq!(db.lookup("re:gi:st:00:00:00"), None);

    // A header-only table, with or without a final newline, is empty.
    let empty = OuiDb::from_csv("registry,assignment,organization_name");
    assert_eq!(empty.lookup("aa:bb:cc:00:00:00"), None);
    let empty2 = OuiDb::from_csv("registry,assignment,organization_name\n");
    assert_eq!(empty2.lookup("aa:bb:cc:00:00:00"), None);
}

#[test]
fn device_enrichment() {
    let db = OuiDb::new_embedded();
    let known = mac(0x00, 0x50, 0x56, 0x00, 0x00, 0x01);
    assert_eq!(get_manufacturer(&db, &known), "VMware Inc.");
    let unknown = mac(0xDE, 0xAD, 0xBE, 0xEF, 0x00, 0x01);
    assert_eq!(get_manufacturer(&db, &unknown), "Unknown");

    let ip = parse_ipv4("192.168.1.9").unwrap();
    let d = make_device(&ip, &known, &db, Some("printer.lan".to_string()));
    assert_eq!(d.ip, "192.168.1.9");
    assert_eq!(d.mac, "00:50:56:00:00:01");
    assert_eq!(d.manufacturer, "VMware Inc.");
    assert_eq!(d.hostname, "printer.lan");

    let d2 = make_device(&ip, &unknown, &db, None);
    assert_eq!(d2.manufacturer, "Unknown");
    assert_eq!(d2.hostname, "Unknown");
}

#[test]
fn device_table_deduplicates_and_sorts() {
    let db = OuiDb::new_embedded();
    let mut table = DeviceTable::new();
    let entries = ["192.168.1.77", "192.168.1.3", "10.0.0.1", "192.168.1.3", "172.16.5.9"];
    for (i, ip_str) in entries.iter().enumerate() {
        let ip = parse_ipv4(ip_str).unwrap();
        let m = mac(0x00, 0x50, 0x56, 0, 0, i as u8);
        let d = make_device(&ip, &m, &db, None);
        table.insert_if_absent(ip.value(), d);
    }
    assert_eq!(table.len(), 4);
    assert!(table.contains(parse_ipv4("192.168.1.3").unwrap().value()));

    let devices = table.sorted_devices();
    let ips: Vec<&str> = devices.iter().map(|d| d.ip.as_str()).collect();
    assert_eq!(ips, ["10.0.0.1", "172.16.5.9", "192.168.1.3", "192.168.1.77"]);
    // The duplicate insertion kept the first device for its address.
    assert_eq!(devices[2].mac, "00:50:56:00:00:01");
}

#[test]
fn self_is_private_check_matches_scan_use() {
    // The scan always includes the host itself; its interface address
    // is in a private range in the scenarios the tool supports.
    let ip = parse_ipv4("192.168.1.10").unwrap();
    assert!(is_private_ip(&ip));
}

#[test]
fn scan_error_messages() {
    assert_eq!(
        ScanError::NoActiveInterface.message(),
        "No active network interface was found."
    );
    assert_eq!(
        ScanError::ChannelCreationFailure.message(),
        "Failed to create the datalink channel."
    );
    assert_eq!(
        ScanError::DefaultInterfaceNotFound.message(),
        "Default network interface not found."
    );
    assert_eq!(
        ScanError::IoError("socket closed".to_string()).message(),
        "I/O error: socket closed"
    );
}

#[test]
fn devices_keep_fields() {
    let d = Device {
        ip: "10.0.0.2".to_string(),
        mac: "aa:bb:cc:dd:ee:ff".to_string(),
        manufacturer: "Unknown".to_string(),
        hostname: "host".to_string(),
    };
    let e: Ipv4Address = parse_ipv4(&d.ip).unwrap();
    assert_eq!(e.value(), 0x0A000002);
}
