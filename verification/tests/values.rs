use nafa::backend::Transfer;
use nafa::cables::{clock_divisor, known, matching, Kind};
use nafa::cli_helpers::{parse_hex16, UsbAddr};
use nafa::devices::{builtin, collect, find, get_devices, xilinx, IdCode, Specific, Xilinx32Family, BUILTIN_LEN};
use nafa::error::Error;
use nafa::ftdi::devices::Board;
use nafa::ftdi::io::{exchange, init_steps, strip_status, Interface};
use nafa::units::{Bits, Bytes, Words32};
use nafa::usb::UsbStep;
use nafa::utils::{Hex, ShortHex, SpaceHex};
use nafa::xilinx::_32bit::drp;
use nafa::xilinx::_32bit::info::get_num_slr;
use nafa::xilinx::_32bit::registers::{decode_type1, encode_type1, type2, Addr, OpCode, Type1};
use nafa::xilinx::_32bit::{bitstream_to_wire_order, reflect, wire_order_to_words};
use nafa::xpc;

#[test]
fn counts_widen_by_four_and_by_eight() {
    assert_eq!(Bytes::from(Words32(548003)).0, 2192012);
    assert_eq!(Bits::from(Bytes(3)).0, 24);
    assert_eq!(Bits::from(Bytes::from(Words32(1))).0, 32);
    let (bytes, bits) = Bits(27usize).as_pair();
    assert_eq!((bytes.0, bits.0), (3, 3));
    let (bytes, bits) = Bits(0usize).as_pair();
    assert_eq!((bytes.0, bits.0), (0, 0));
}

#[test]
fn idcode_masks_the_version() {
    let mut code = 1u32;
    for _ in 0..10_000 {
        code = code.wrapping_mul(1103515245).wrapping_add(12345);
        assert_eq!(IdCode::new(code).code(), code & 0x0fff_ffff);
    }
    assert_eq!(IdCode::new(0xffff_ffff).code(), 0x0fff_ffff);
    assert_eq!(IdCode::new(0xf000_0000).code(), 0);
    assert_eq!(IdCode::new(0x1471_0093), IdCode::new(0x2471_0093));
    assert!(IdCode::new(1) != IdCode::new(2));
}

#[test]
fn the_table_knows_its_devices() {
    let table = builtin();
    assert_eq!(table.len(), BUILTIN_LEN);
    assert_eq!(xilinx().len(), 288);
    let devices = get_devices();
    assert_eq!(devices.len(), 288, "no two entries share a code");
    assert_eq!(collect(&table).len(), 288);
    let a35 = find(&devices, 0x0362_d093).unwrap();
    assert_eq!((a35.name, a35.irlen.0), ("XC7A35T", 6));
    match a35.specific {
        Specific::Xilinx32(x) => {
            assert_eq!(x.family, Xilinx32Family::S7);
            assert_eq!((x.slr, x.readback.0), (1, 548003));
        }
        Specific::Unknown => panic!("a 7-series device"),
    }
    assert_eq!(get_num_slr(&a35), Some(1));
    assert_eq!(find(&devices, 0xf362_d093).unwrap().name, "XC7A35T");
    assert_eq!(find(&devices, 0x04a6_3093).unwrap().name, "XCKU3P");
    assert_eq!(find(&devices, 0x1471_0093).unwrap().name, "XCZU3EG");
    assert_eq!(find(&devices, 0x0471_0093).unwrap().irlen.0, 12);
    let old = find(&devices, 0x0401_d093).unwrap();
    assert!(matches!(old.specific, Specific::Unknown));
    assert_eq!(get_num_slr(&old), None);
    assert!(find(&devices, 0).is_none());
    assert!(find(&devices, 0x036d_b093).is_none(), "no row for a part with 38 bits of instruction");
    assert!(find(&devices, 0xffff_ffff).is_none());
    for (id, info) in &table {
        assert!(id.code() & 0xf000_0000 == 0);
        assert!(1 <= info.irlen.0 && info.irlen.0 <= 32);
        assert_eq!(find(&devices, id.code()).unwrap().name, info.name);
    }
}

#[test]
fn type1_packets_follow_the_layout() {
    let stat = Type1 { op: OpCode::Read, addr: Addr::Stat, word_count: 1 };
    assert_eq!(stat.to_raw(), 0x2800_e001);
    assert_eq!(Type1::new(OpCode::Write, Addr::Cmd, 1).to_raw(), 0x3000_8001);
    assert_eq!(Type1::new(OpCode::Noop, Addr::Crc, 0).to_raw(), Type1::NOOP);
    assert_eq!(Type1::new(OpCode::Read, Addr::Bspi, 0x7ff).to_raw(), 0x2803_e7ff);
    assert_eq!(Type1::new(OpCode::Read, Addr::Bspi, 0x800).to_raw(), 0x2803_e000);
    assert_eq!(Type1::SYNC, 0xaa99_5566);
    assert_eq!(Type1::DUMMY, 0xffff_ffff);
    let back = Type1::from_raw(0x2800_e001).unwrap();
    assert_eq!((back.op, back.addr, back.word_count), (OpCode::Read, Addr::Stat, 1));
    assert!(Type1::from_raw(0x4800_e001).is_none(), "a type-2 header");
    assert!(Type1::from_raw(0x2800_e801).is_none(), "a reserved bit");
    assert!(Type1::from_raw(0x2801_e001).is_none(), "no register at 15");
    assert_eq!(Type1::from_raw(0x3800_0000).unwrap().op, OpCode::Unknown);
    assert_eq!(OpCode::default(), OpCode::Unknown);
}

#[test]
fn type1_fields_round_trip() {
    for op in 0..=2u8 {
        for addr in (0..16384u16).step_by(7).chain([16383]) {
            for wc in (0..2048u16).step_by(13).chain([2047]) {
                let raw = encode_type1(op, addr, wc);
                assert_eq!(raw, 1 << 29 | (op as u32) << 27 | (addr as u32) << 13 | wc as u32);
                assert_eq!(decode_type1(raw), Some((op, addr, wc)));
            }
        }
    }
    assert_eq!(encode_type1(7, 0xffff, 0xffff), 0x3fff_e7ff);
    assert_eq!(decode_type1(0), None);
    assert_eq!(decode_type1(0x2000_1000), None);
    for code in 0..32u16 {
        if let Some(a) = Addr::from_code(code) {
            assert_eq!(a.code(), code);
            let p = Type1::from_raw(Type1::new(OpCode::Write, a, 5).to_raw()).unwrap();
            assert_eq!((p.op, p.addr, p.word_count), (OpCode::Write, a, 5));
        } else {
            assert!([15, 18, 20, 21, 23, 25, 27, 28, 29].contains(&code));
        }
    }
}

#[test]
fn type2_packets_follow_the_layout() {
    assert_eq!(type2(OpCode::Read, 0xff_ffff), 0x48ff_ffff);
    assert_eq!(type2(OpCode::Write, 0), 0x5000_0000);
    assert_eq!(type2(OpCode::Noop, 0x07ff_ffff), 0x47ff_ffff);
    assert_eq!(type2(OpCode::Noop, 0x0800_0001), 0x4000_0001);
}

#[test]
fn accesses_to_the_converter_are_packed() {
    let c = drp::Command { cmd: drp::Cmd::Read, addr: drp::Addr::VccBram, data: 0 };
    assert_eq!(c.to_bits(), 0x0406_0000);
    let c = drp::Command { cmd: drp::Cmd::Write, addr: drp::Addr::Flag, data: 0x1234 };
    assert_eq!(c.to_bits(), 0x083f_1234);
    assert_eq!(drp::Command::to_bits_raw(0xff, 0xffff, 0xffff), 0x3fff_ffff);
    assert_eq!(drp::Command::to_bits_raw(0, 0, 0), 0);
    assert_eq!(drp::Addr::Temperature.code(), 0);
    assert_eq!(drp::Addr::VAuxPVAuxNF.code(), 0x1f);
    assert_eq!(drp::Cmd::Noop.code(), 0);
}

#[test]
fn reflecting_twice_changes_nothing() {
    for b in 0..=255u8 {
        assert_eq!(reflect(b), b.reverse_bits());
        assert_eq!(reflect(reflect(b)), b);
    }
    let words = [0xaa99_5566u32, 0x2000_0000, 0x0000_0001, 0xffff_ffff, 0x8000_0000];
    let wire = bitstream_to_wire_order(&words);
    assert_eq!(&wire[..8], &[0x55, 0x99, 0xaa, 0x66, 0x04, 0, 0, 0]);
    assert_eq!(&wire[8..12], &[0, 0, 0, 0x80]);
    assert_eq!(&wire[16..], &[0x01, 0, 0, 0]);
    assert_eq!(wire_order_to_words(&wire), words);
    assert_eq!(bitstream_to_wire_order(&wire_order_to_words(&wire)), wire);
    assert_eq!(wire_order_to_words(&wire[..7]), vec![0xaa99_5566]);
    assert!(bitstream_to_wire_order(&[]).is_empty());
}

#[test]
fn numbers_are_shown_in_hexadecimal() {
    assert_eq!(Hex(0xabu8).to_string(), "AB");
    assert_eq!(Hex(0x05u8).to_string(), "05");
    assert_eq!(Hex(0x1u16).to_string(), "0001");
    assert_eq!(Hex(0xbeefu16).to_string(), "BEEF");
    assert_eq!(Hex(0x0362_d093u32).to_string(), "0362D093");
    let bytes: Vec<u8> = (0..17).map(|i| i * 0x11).collect();
    assert_eq!(ShortHex(&bytes[..2]).to_string(), "0011");
    assert_eq!(ShortHex(&bytes[..16]).to_string(), "00112233445566778899AABBCCDDEEFF");
    assert_eq!(ShortHex(&bytes).to_string(), "00112233445566778899AABBCCDDEEFF...");
    assert_eq!(ShortHex(&[]).to_string(), "");
    assert_eq!(SpaceHex(&bytes[..3]).to_string(), "00 11 22 ");
    assert_eq!(
        SpaceHex(&bytes).to_string(),
        "00 11 22 33 44 55 66 77 88 99 AA BB CC DD EE FF ..."
    );
}

#[test]
fn usb_addresses_are_parsed() {
    assert_eq!(UsbAddr::from_str("0403:6010"), Some(UsbAddr { vid: 0x0403, pid: 0x6010 }));
    assert_eq!(UsbAddr::from_str("3fd:8"), Some(UsbAddr { vid: 0x03fd, pid: 8 }));
    assert_eq!(UsbAddr::from_str("FFFF:ffff"), Some(UsbAddr { vid: 0xffff, pid: 0xffff }));
    assert_eq!(UsbAddr::from_str("+1:+000000002"), Some(UsbAddr { vid: 1, pid: 2 }));
    for bad in ["", ":", "0403", "0403:", ":6010", "10000:1", "1:10000", "g:1", "1:2:3", "-1:2", "+:1", " 1:2", "0x1:2", "++1:2"] {
        assert_eq!(UsbAddr::from_str(bad), None, "{bad:?}");
        assert!(bad
            .split_once(':')
            .and_then(|(v, p)| Some((u16::from_str_radix(v, 16).ok()?, u16::from_str_radix(p, 16).ok()?)))
            .is_none());
    }
    assert_eq!(UsbAddr { vid: 0x0403, pid: 0x6010 }.to_string(), "0403:6010");
    assert_eq!(UsbAddr { vid: 0xabcd, pid: 0xf }.to_string(), "ABCD:000F");
    assert_eq!(parse_hex16(b"fFfF"), Some(0xffff));
    assert_eq!(parse_hex16(b"00000000000000000001"), Some(1));
    assert_eq!(parse_hex16(b"10000"), None);
    for v in [0u16, 1, 0x7fff, 0xffff] {
        let addr = UsbAddr { vid: v, pid: !v };
        assert_eq!(UsbAddr::from_str(&addr.to_string()), Some(addr));
    }
}

#[test]
fn errors_describe_themselves() {
    assert_eq!(Error::NoDevices.message(), "no devices detected on jtag chain");
    assert_eq!(Error::MultipleDevices(vec![]).message(), "multiple devices detected on jtag chain: []");
    assert_eq!(Error::MultipleDevices(vec![1]).message(), "multiple devices detected on jtag chain: [00000001]");
    assert_eq!(Error::WakeEndOfChain.message(), "end of chain after zynq us special case");
    assert_eq!(Error::WakeBypass.message(), "still in bypass after zynq us special case");
    assert_eq!(Error::IrTooLong(0x0abc_d093).message(), "instruction register of 0ABCD093 is longer than 32 bits");
    assert!(!Error::ShortRead { expected: 1, got: 0 }.message().is_empty());
    assert!(!Error::NoSuchDevice(3).message().is_empty());
    assert!(!Error::ChainTooLong.message().is_empty());
}

#[test]
fn cables_are_found_by_their_identifiers() {
    let table = known();
    assert_eq!(table.len(), 11);
    let ftdi = matching(&table, 0x0403, 0x6010);
    assert_eq!(ftdi.len(), 10);
    assert_eq!(ftdi[0].name, "bbv2");
    assert_eq!(ftdi[0].kind, Kind::Ftdi(Board::Bbv2, 1500000));
    assert_eq!(ftdi[9].name, "nexys4");
    let cable = matching(&table, 0x03fd, 0x0008);
    assert_eq!(cable.len(), 1);
    assert_eq!((cable[0].name, cable[0].kind), ("xpc", Kind::Xpc));
    assert!(matching(&table, 0x0403, 0x6011).is_empty());
    assert!(matching(&table, 0x6010, 0x0403).is_empty());
}

#[test]
fn clock_divisors_never_clock_faster_than_asked() {
    assert_eq!(clock_divisor(30_000_000), Some(0));
    assert_eq!(clock_divisor(60_000_000), Some(0));
    assert_eq!(clock_divisor(15_000_000), Some(1));
    assert_eq!(clock_divisor(8_000_000), Some(3));
    assert_eq!(clock_divisor(6_000_000), Some(4));
    assert_eq!(clock_divisor(1_500_000), Some(19));
    assert_eq!(clock_divisor(458), Some(65502));
    assert_eq!(clock_divisor(457), None);
    assert_eq!(clock_divisor(1), None);
    assert_eq!(clock_divisor(0), None);
}

#[test]
fn interfaces_have_their_endpoints() {
    let all = [Interface::A, Interface::B, Interface::C, Interface::D];
    for (i, iface) in all.into_iter().enumerate() {
        assert_eq!(iface.interface(), i as u8);
        assert_eq!(iface.index(), i as u16 + 1);
        let ep = iface.endpoints();
        assert_eq!((ep.in_, ep.out), (0x02 + 2 * i as u8, 0x81 + 2 * i as u8));
    }
    let steps = init_steps(Interface::B);
    let control = |request: u8, value: u16, index: u16| UsbStep::ControlOut {
        request_type: 0x40,
        request,
        value,
        index,
        data: vec![],
    };
    assert_eq!(
        steps,
        vec![
            UsbStep::Claim { interface: 1 },
            control(0, 0, 2),
            control(0, 2, 2),
            control(0, 1, 2),
            control(9, 16, 2),
            control(6, 0, 2),
            control(7, 0, 2),
            control(2, 0, 0x102),
            control(0x0b, 0x0200, 2),
        ]
    );
    let t = Transfer { out: vec![1, 2, 0x87], bits: 0, read_len: 5, notify: 0 };
    assert_eq!(
        exchange(Interface::A, &t),
        vec![UsbStep::BulkOut { endpoint: 0x02, data: vec![1, 2, 0x87] }, UsbStep::BulkIn { endpoint: 0x81, len: 5 }]
    );
    let t = Transfer { out: vec![0x87], bits: 0, read_len: 0, notify: 0 };
    assert_eq!(exchange(Interface::D, &t), vec![UsbStep::BulkOut { endpoint: 0x08, data: vec![0x87] }]);
}

#[test]
fn status_bytes_are_stripped_from_every_packet() {
    assert_eq!(strip_status(&[], 512), Vec::<u8>::new());
    assert_eq!(strip_status(&[0x32, 0x60], 512), Vec::<u8>::new());
    assert_eq!(strip_status(&[0x32], 512), Vec::<u8>::new());
    assert_eq!(strip_status(&[0x32, 0x60, 1, 2, 3], 512), vec![1, 2, 3]);
    assert_eq!(strip_status(&[9, 9, 1, 2, 9, 9, 3, 4, 9, 9, 5], 4), vec![1, 2, 3, 4, 5]);
    assert_eq!(strip_status(&[9, 9, 1, 2, 9, 9], 4), vec![1, 2]);
    assert_eq!(strip_status(&[9, 9, 9, 9], 2), Vec::<u8>::new());
    assert_eq!(strip_status(&[9, 9, 9], 1), Vec::<u8>::new());
    let raw: Vec<u8> = (0..1030u32).map(|i| i as u8).collect();
    let data = strip_status(&raw, 512);
    assert_eq!(data.len(), 1030 - 6);
    assert_eq!(&data[..2], &[2, 3]);
    assert_eq!(data[510], (514u32 % 256) as u8);
}

#[test]
fn the_platform_cable_is_set_up_and_flashed() {
    let request = |value: u16, index: u16| UsbStep::ControlOut {
        request_type: 0x40,
        request: 0xb0,
        value,
        index,
        data: vec![],
    };
    let version = |index: u16| UsbStep::ControlIn { request_type: 0xc0, request: 0xb0, value: 0x50, index, len: 2 };
    assert_eq!(
        xpc::init_steps(),
        vec![
            request(0x28, 0x11),
            request(0x30, 0x08),
            version(0),
            version(1),
            request(0x18, 0),
            request(0xa6, 2),
            UsbStep::BulkOut { endpoint: 0x02, data: vec![0, 0] },
            request(0x28, 0x12),
        ]
    );
    let t = Transfer { out: vec![0x11, 0x01], bits: 1, read_len: 0, notify: 0 };
    assert_eq!(xpc::exchange(&t), vec![request(0xa6, 1), UsbStep::BulkOut { endpoint: 0x02, data: vec![0x11, 0x01] }]);
    let t = Transfer { out: vec![0; 4], bits: 8, read_len: 1, notify: 0 };
    assert_eq!(xpc::exchange(&t)[2], UsbStep::BulkIn { endpoint: 0x86, len: 1 });

    let write = |addr: u16, data: Vec<u8>| UsbStep::ControlOut { request_type: 0x40, request: 0xa0, value: addr, index: 0, data };
    let page: Vec<u8> = (0..130).collect();
    let steps = xpc::flash(&vec![(0x0100, page.clone()), (0xfffe, vec![7, 8]), (0x2000, vec![])]);
    assert_eq!(
        steps,
        vec![
            UsbStep::Claim { interface: 0 },
            write(0xe600, vec![1]),
            write(0x0100, page[..64].to_vec()),
            write(0x0140, page[64..128].to_vec()),
            write(0x0180, page[128..].to_vec()),
            write(0xfffe, vec![7, 8]),
            write(0xe600, vec![0]),
            UsbStep::Release { interface: 0 },
        ]
    );
    assert_eq!(xpc::flash(&vec![]).len(), 4);
}

#[test]
fn boards_have_their_wiring() {
    let n = Board::Nexys4.info();
    assert_eq!((n.dbus_data, n.dbus_en, n.cbus_data, n.cbus_en), (0xe8, 0xeb, 0x00, 0x60));
    let b = Board::Bbv2.info();
    assert_eq!((b.dbus_data, b.dbus_en, b.cbus_data, b.cbus_en), (0, 0x10, 0, 0));
    assert_eq!(Board::Ikda.info().cbus_en, 0x04);
    assert_eq!(Board::Llif.info().dbus_data, 0x10);
    assert_eq!(Board::Ft2232Test.info().cbus_en, 0x80);
    assert_eq!(Board::LMotctl.info().cbus_en, 0x40);
    assert_eq!(Board::Knob2Usb.info().cbus_en, 0x40);
    assert_eq!(Board::Qm07Pu.info().cbus_en, 0x04);
    assert_eq!(Board::LMotctlAvr.info().dbus_en, 0);
}

#[test]
fn firmware_images_are_sequences_of_pages() {
    assert_eq!(xpc::parse_firmware(&[]), Some(vec![]));
    let image = [0x00, 0x01, 0x03, 0x00, 7, 8, 9, 0xfe, 0xff, 0x02, 0x00, 1, 2, 0x34, 0x12, 0, 0];
    assert_eq!(
        xpc::parse_firmware(&image),
        Some(vec![(0x0100, vec![7, 8, 9]), (0xfffe, vec![1, 2]), (0x1234, vec![])])
    );
    assert_eq!(xpc::parse_firmware(&image[..16]), None, "a header cut short");
    assert_eq!(xpc::parse_firmware(&image[..10]), None, "a page cut short");
    assert_eq!(xpc::parse_firmware(&[0xff, 0xff, 0x02, 0x00, 1, 2]), None, "a page beyond the address space");
    assert_eq!(xpc::parse_firmware(&[0xff, 0xff, 0x01, 0x00, 1]), Some(vec![(0xffff, vec![1])]));
}

#[test]
fn measurements_are_the_upper_bits_of_a_register() {
    for data in 0..=u16::MAX {
        assert_eq!(drp::measurement(data, drp::Width::Ten), data >> 6);
        assert_eq!(drp::measurement(data, drp::Width::Twelve), data >> 4);
        assert_eq!(drp::measurement_signed(data, drp::Width::Ten), data as i16 >> 6);
        assert_eq!(drp::measurement_signed(data, drp::Width::Twelve), data as i16 >> 4);
    }
    assert_eq!(drp::measurement_signed(0xffff, drp::Width::Ten), -1);
    assert_eq!(drp::measurement_signed(0x8000, drp::Width::Twelve), -2048);
    assert_eq!(drp::Addr::Temperature.quantity(), drp::Quantity::Temperature);
    assert_eq!(drp::Addr::MinTemp.quantity(), drp::Quantity::Temperature);
    assert_eq!(drp::Addr::VccBram.quantity(), drp::Quantity::PowerSupply);
    assert_eq!(drp::Addr::VccODdrMin.quantity(), drp::Quantity::PowerSupply);
    assert_eq!(drp::Addr::MaxVccBram.quantity(), drp::Quantity::Other);
    assert_eq!(drp::Addr::VpVn.quantity(), drp::Quantity::Adc);
    assert_eq!(drp::Addr::VAuxPVAuxNF.quantity(), drp::Quantity::Adc);
    assert_eq!(drp::Addr::Flag.quantity(), drp::Quantity::Other);
    assert_eq!(drp::Addr::AdcAGain.quantity(), drp::Quantity::Other);
}

#[test]
fn hexadecimal_numbers_are_read_as_the_standard_library_reads_them() {
    let alphabet = b"0123456789abcdefABCDEFgG+-: x";
    let mut seed = 0x2545_f491u32;
    for _ in 0..200_000 {
        seed ^= seed << 13;
        seed ^= seed >> 17;
        seed ^= seed << 5;
        let len = (seed % 7) as usize;
        let mut text = Vec::new();
        let mut x = seed;
        for _ in 0..len {
            x = x.wrapping_mul(1664525).wrapping_add(1013904223);
            // mostly digits, so that long valid numbers occur
            let pick = if x & 0x300 == 0 { (x >> 16) as usize % alphabet.len() } else { (x >> 16) as usize % 22 };
            text.push(alphabet[pick]);
        }
        let s = std::str::from_utf8(&text).unwrap();
        assert_eq!(parse_hex16(&text), u16::from_str_radix(s, 16).ok(), "{s:?}");
    }
    for v in 0..=u16::MAX {
        assert_eq!(parse_hex16(format!("{v:x}").as_bytes()), Some(v));
        assert_eq!(parse_hex16(format!("{v:04X}").as_bytes()), Some(v));
    }
}
