use machine_code::mac::{
    adapter_query_error, format_mac, mac_from_adapters, Adapter, IF_TYPE_ETHERNET_CSMACD,
    IF_TYPE_IEEE80211,
};
use machine_code::smbios::{find_smbios_strings_end, parse_smbios_string, smbios_get_string};
use machine_code::sources::{
    next_drive_step, parse_wmic_output, physical_drive_path, DriveStep, PHYSICAL_DRIVE_COUNT, storage_serial_from_descriptor, variant_to_string, wmi_query,
    wmi_string_from_rows, wmic_output_value, WmiRow, WmiValue,
};

fn adapter(if_type: u32, address: &[u8]) -> Adapter {
    Adapter { if_type, physical_address: address.to_vec() }
}

#[test]
fn mac_rendering() {
    assert_eq!(format_mac(&[0x00, 0x1a, 0x2b, 0xff, 0x0c, 0x9d]), "00:1A:2B:FF:0C:9D");
    assert_eq!(format_mac(&[]), "");
    assert_eq!(format_mac(&[7]), "07");
    assert_eq!(format_mac(&[1, 2, 3, 4, 5, 6]).chars().count(), 17);
}

#[test]
fn first_physical_adapter_wins() {
    let adapters = vec![
        adapter(24, &[1, 2, 3, 4, 5, 6]),
        adapter(IF_TYPE_ETHERNET_CSMACD, &[0, 0, 0, 0, 0, 0]),
        adapter(IF_TYPE_ETHERNET_CSMACD, &[1, 2, 3, 4, 5]),
        adapter(IF_TYPE_IEEE80211, &[0xde, 0xad, 0, 0, 0xbe, 0xef]),
        adapter(IF_TYPE_ETHERNET_CSMACD, &[0xaa, 0xbb, 0xcc, 0xdd, 0xee, 0xff]),
    ];
    assert_eq!(mac_from_adapters(&adapters), Ok("DE:AD:00:00:BE:EF".to_string()));
}

#[test]
fn no_physical_adapter() {
    assert_eq!(mac_from_adapters(&[]), Err("未找到有效物理网卡 MAC".to_string()));
    let adapters = vec![adapter(24, &[1, 2, 3, 4, 5, 6])];
    assert_eq!(mac_from_adapters(&adapters), Err("未找到有效物理网卡 MAC".to_string()));
    assert_eq!(adapter_query_error(111), "GetAdaptersAddresses 返回错误码 111");
}

/// A raw SMBIOS table: the 8-byte header, a BIOS structure (type 0) and a
/// baseboard structure (type 2), then the end-of-table structure.
fn smbios_table() -> Vec<u8> {
    let mut d = vec![0u8; 8];
    // type 0, length 8: vendor = 1, version = 2, serial at offset 7 = 3
    d.extend_from_slice(&[0, 8, 0, 0, 1, 2, 0, 3]);
    d.extend_from_slice(b"Vendor\0V1.0\0 BIOS-SN \0\0");
    // type 2, length 8: manufacturer = 1, product = 2, version = 0, serial = 3
    d.extend_from_slice(&[2, 8, 1, 0, 1, 2, 0, 3]);
    d.extend_from_slice(b"Maker\0Board\0MB-42\0\0");
    // type 127, length 4
    d.extend_from_slice(&[127, 4, 2, 0, 0, 0]);
    d
}

#[test]
fn smbios_fields() {
    let d = smbios_table();
    assert_eq!(parse_smbios_string(&d, 0, 7), Ok("BIOS-SN".to_string()));
    assert_eq!(parse_smbios_string(&d, 2, 7), Ok("MB-42".to_string()));
    assert_eq!(parse_smbios_string(&d, 2, 5), Ok("Board".to_string()));
    assert_eq!(parse_smbios_string(&d, 2, 6), Err("SMBIOS 字符串索引为 0".to_string()));
    assert_eq!(parse_smbios_string(&d, 2, 8), Err("SMBIOS 字段偏移超出结构长度".to_string()));
    assert_eq!(parse_smbios_string(&d, 1, 7), Err("未找到 SMBIOS type 1".to_string()));
    assert_eq!(parse_smbios_string(&d[..7], 0, 7), Err("SMBIOS 数据过短".to_string()));
}

#[test]
fn smbios_unterminated_strings() {
    let mut d = vec![0u8; 8];
    d.extend_from_slice(&[2, 8, 1, 0, 1, 2, 0, 3]);
    d.extend_from_slice(b"Maker\0Board");
    assert_eq!(parse_smbios_string(&d, 2, 7), Err("SMBIOS 字符串区域未结束".to_string()));
}

#[test]
fn smbios_strings_area() {
    assert_eq!(find_smbios_strings_end(&[1, 0, 2, 0, 0, 5], 0), Some(3));
    assert_eq!(find_smbios_strings_end(&[0, 0], 0), Some(0));
    assert_eq!(find_smbios_strings_end(&[1, 0, 2], 0), None);
    assert_eq!(find_smbios_strings_end(&[1, 0, 0], 5), None);
    assert_eq!(smbios_get_string(b"A\0 B \0C", 2), Ok("B".to_string()));
    assert_eq!(smbios_get_string(b"A\0B", 3), Err("SMBIOS 字符串索引 3 不存在".to_string()));
    assert_eq!(smbios_get_string(b"", 1), Ok("".to_string()));
}

fn descriptor(offset: u32, tail: &[u8]) -> Vec<u8> {
    let mut b = vec![0u8; 40];
    b[24..28].copy_from_slice(&offset.to_le_bytes());
    b.extend_from_slice(tail);
    b
}

#[test]
fn storage_descriptor_serial() {
    let b = descriptor(40, b"  WD-123  \0garbage");
    assert_eq!(storage_serial_from_descriptor(&b, b.len() as u32, 40), Ok("WD-123".to_string()));
    let b = descriptor(42, b"  XY");
    assert_eq!(storage_serial_from_descriptor(&b, 44, 40), Ok("XY".to_string()));
}

#[test]
fn storage_descriptor_errors() {
    let b = descriptor(40, b"SN\0");
    assert_eq!(
        storage_serial_from_descriptor(&b, 39, 40),
        Err("STORAGE_DEVICE_DESCRIPTOR 返回长度过短".to_string())
    );
    let b = descriptor(0, b"SN\0");
    assert_eq!(storage_serial_from_descriptor(&b, 43, 40), Err("SerialNumberOffset 无效: 0".to_string()));
    let b = descriptor(300, b"SN\0");
    assert_eq!(
        storage_serial_from_descriptor(&b, 43, 40),
        Err("SerialNumberOffset 无效: 300".to_string())
    );
}

#[test]
fn wmi_values_as_text() {
    assert_eq!(variant_to_string(&WmiValue::Text("abc".to_string())), Some("abc".to_string()));
    assert_eq!(variant_to_string(&WmiValue::Unsigned(42)), Some("42".to_string()));
    assert_eq!(variant_to_string(&WmiValue::Signed(-7)), Some("-7".to_string()));
    assert_eq!(variant_to_string(&WmiValue::Other), None);
    assert_eq!(wmi_query("Win32_BIOS", "SerialNumber"), "SELECT SerialNumber FROM Win32_BIOS");
}

#[test]
fn wmi_first_row_with_text() {
    let rows = vec![
        WmiRow { values: vec![("Name".to_string(), WmiValue::Text("x".to_string()))] },
        WmiRow { values: vec![("SerialNumber".to_string(), WmiValue::Other)] },
        WmiRow {
            values: vec![
                ("Name".to_string(), WmiValue::Unsigned(1)),
                ("SerialNumber".to_string(), WmiValue::Text(" S1 ".to_string())),
            ],
        },
        WmiRow { values: vec![("SerialNumber".to_string(), WmiValue::Text("S2".to_string()))] },
    ];
    assert_eq!(wmi_string_from_rows(&rows, "Win32_BIOS", "SerialNumber"), Ok(" S1 ".to_string()));
    assert_eq!(
        wmi_string_from_rows(&rows[..2], "Win32_BIOS", "SerialNumber"),
        Err("WMI 查询无结果: SELECT SerialNumber FROM Win32_BIOS".to_string())
    );
}

#[test]
fn wmic_keyed_value() {
    let out = "\r\r\n\r\r\nProcessorId=BFEBFBFF000906EA  \r\r\n\r\r\n";
    assert_eq!(parse_wmic_output(out, "ProcessorId"), Ok("BFEBFBFF000906EA".to_string()));
}

#[test]
fn wmic_fallback_lines() {
    let out = "SerialNumber  \r\nABC 123\r\n\r\n  more \n";
    assert_eq!(parse_wmic_output(out, "serialnumber"), Ok("ABC 123 more".to_string()));
    assert_eq!(parse_wmic_output("SerialNumber\r\n\r\n", "SerialNumber"), Err("wmic 未返回 SerialNumber".to_string()));
}

#[test]
fn wmic_run_outcome() {
    assert_eq!(
        wmic_output_value(false, "exit code: 1", b"", b" access denied \r\n", "UUID"),
        Err("wmic 退出码: exit code: 1, stderr=access denied".to_string())
    );
    assert_eq!(
        wmic_output_value(true, "exit code: 0", b"UUID=1234-ABCD\r\n", b"", "UUID"),
        Ok("1234-ABCD".to_string())
    );
    assert_eq!(
        wmic_output_value(true, "exit code: 0", b"UUID=\xff\r\n", b"", "UUID"),
        Ok("\u{fffd}".to_string())
    );
}

#[test]
fn drive_paths() {
    assert_eq!(physical_drive_path(0), "\\\\.\\PhysicalDrive0");
    assert_eq!(physical_drive_path(7), r"\\.\PhysicalDrive7");
}

#[test]
fn drives_tried_in_turn() {
    assert!(matches!(next_drive_step(0, Err("open failed".to_string())), DriveStep::Query(1)));
    assert!(matches!(next_drive_step(6, Err("x".to_string())), DriveStep::Query(7)));
    match next_drive_step(3, Ok("SN".to_string())) {
        DriveStep::Finished(Ok(s)) => assert_eq!(s, "SN"),
        _ => panic!("expected the serial number"),
    }
    match next_drive_step(PHYSICAL_DRIVE_COUNT - 1, Err("x".to_string())) {
        DriveStep::Finished(Err(e)) => assert_eq!(e, "DeviceIoControl 未读取到有效硬盘序列号"),
        _ => panic!("expected the search to fail"),
    }
}
