use nafa::backend::{Backend, Cycle, Data, Transfer};
use nafa::fake_backend::{encode_cycle, write_cycles, FakeBackend};
use nafa::ftdi;
use nafa::ftdi::devices::Board;
use nafa::jtag::{get_path, Path, State};
use nafa::units::{Bits, Bytes};
use nafa::xpc;

fn bits_of(path: Path) -> Vec<bool> {
    (0..path.len).map(|i| (path.path >> (path.len - 1 - i)) & 1 == 1).collect()
}

fn c(tms: bool, tdi: bool, tdo: bool) -> Cycle {
    Cycle { tms, tdi, tdo }
}

/// The cycles that the contract of the cable drivers asks for.
fn expected(
    before: Option<Path>,
    payload: Vec<Cycle>,
    after: Option<Path>,
    held: bool,
    exit_reads: bool,
) -> Vec<Cycle> {
    let mut out = Vec::new();
    if let Some(p) = before {
        for t in bits_of(p) {
            out.push(c(t, held, false));
        }
    }
    match after {
        Some(p) if p.len > 0 && !payload.is_empty() => {
            let last = *payload.last().unwrap();
            out.extend_from_slice(&payload[..payload.len() - 1]);
            let path = bits_of(p);
            out.push(c(path[0], last.tdi, last.tdo && exit_reads));
            for t in &path[1..] {
                out.push(c(*t, last.tdi, false));
            }
        }
        Some(p) => {
            let level = payload.last().map(|x| x.tdi).unwrap_or(held);
            out.extend_from_slice(&payload);
            for t in bits_of(p) {
                out.push(c(t, level, false));
            }
        }
        None => out.extend_from_slice(&payload),
    }
    out
}

fn byte_payload(bytes: &[u8], tdo: bool) -> Vec<Cycle> {
    let mut out = Vec::new();
    for b in bytes {
        for k in 0..8 {
            out.push(c(false, (b >> k) & 1 == 1, tdo));
        }
    }
    out
}

fn constant_payload(n: usize, tdi: bool, tdo: bool) -> Vec<Cycle> {
    vec![c(false, tdi, tdo); n]
}

fn word_payload(data: u32, len: u8) -> Vec<Cycle> {
    (0..len).map(|k| c(false, (data >> k) & 1 == 1, false)).collect()
}

fn payload_of(data: &Data<'_>, held: bool) -> Vec<Cycle> {
    match data {
        Data::Tx(b) => byte_payload(b, false),
        Data::TxRx(b) => byte_payload(b, true),
        Data::Rx(n) => constant_payload(8 * n.0, held, true),
        Data::ConstantTx(t, n) => constant_payload(8 * n.0, *t, false),
    }
}

fn expected_bytes(
    before: Option<Path>,
    data: &Data<'_>,
    after: Option<Path>,
    held: bool,
    exit_reads: bool,
) -> Vec<Cycle> {
    expected(before, payload_of(data, held), after, held, exit_reads)
}

fn decode_fake(transfers: &[Transfer]) -> Vec<Cycle> {
    let mut out = Vec::new();
    for t in transfers {
        assert_eq!(t.bits, t.out.len());
        for b in &t.out {
            out.push(c(b & 1 != 0, b & 2 != 0, b & 4 != 0));
        }
    }
    out
}

/// What an FT2232H clocks for a stream of MPSSE commands.
fn mpsse(stream: &[u8], held: &mut bool) -> Vec<Cycle> {
    let mut out = Vec::new();
    let mut i = 0;
    while i < stream.len() {
        match stream[i] {
            0x87 => i += 1,
            0x4b => {
                let n = stream[i + 1] as usize + 1;
                assert!(n <= 7, "a burst clocks at most seven TMS bits");
                let d = stream[i + 2];
                for k in 0..n {
                    out.push(c((d >> k) & 1 == 1, d & 0x80 != 0, false));
                }
                *held = d & 0x80 != 0;
                i += 3;
            }
            op @ (0x19 | 0x3d) => {
                let n = stream[i + 1] as usize + 256 * stream[i + 2] as usize + 1;
                let data = &stream[i + 3..i + 3 + n];
                out.extend(byte_payload(data, op == 0x3d));
                *held = data[n - 1] & 0x80 != 0;
                i += 3 + n;
            }
            0x2c => {
                let n = stream[i + 1] as usize + 256 * stream[i + 2] as usize + 1;
                out.extend(constant_payload(8 * n, *held, true));
                i += 3;
            }
            0x2e => {
                let n = stream[i + 1] as usize + 1;
                assert!(n <= 8);
                out.extend(constant_payload(n, *held, true));
                i += 2;
            }
            op @ (0x1b | 0x3f) => {
                let n = stream[i + 1] as usize + 1;
                assert!(n <= 8);
                let d = stream[i + 2];
                for k in 0..n {
                    out.push(c(false, (d >> k) & 1 == 1, op == 0x3f));
                }
                *held = (d >> (n - 1)) & 1 == 1;
                i += 3;
            }
            other => panic!("unknown command {other:02X} at {i}"),
        }
    }
    out
}

/// The number of bytes that an FT2232H returns for a stream of commands.
fn mpsse_reads(stream: &[u8]) -> usize {
    let mut reads = 0;
    let mut i = 0;
    while i < stream.len() {
        let n = || stream[i + 1] as usize + 256 * stream[i + 2] as usize + 1;
        match stream[i] {
            0x87 => i += 1,
            0x2e => {
                reads += 1;
                i += 2;
            }
            0x2c => {
                reads += n();
                i += 3;
            }
            0x3d => {
                reads += n();
                i += 3 + n();
            }
            0x19 => i += 3 + n(),
            0x3f => {
                reads += 1;
                i += 3;
            }
            _ => i += 3,
        }
    }
    reads
}

fn decode_ftdi(transfers: &[Transfer], held: bool) -> Vec<Cycle> {
    let mut held = held;
    let mut out = Vec::new();
    for t in transfers {
        assert_eq!(*t.out.last().unwrap(), 0x87);
        assert_eq!(t.read_len, mpsse_reads(&t.out), "an exchange reads what its commands return");
        out.extend(mpsse(&t.out, &mut held));
    }
    out
}

fn decode_xpc(transfers: &[Transfer]) -> Vec<Cycle> {
    let mut out = Vec::new();
    for t in transfers {
        assert!(t.bits <= 65535);
        assert_eq!(t.out.len(), 2 * ((t.bits + 3) / 4));
        for i in 0..t.bits {
            assert!((t.out[2 * (i / 4) + 1] >> (i % 4)) & 1 == 1, "cycle {i} is clocked");
        }
        out.extend(xpc::unpack_cycles(&t.out, t.bits));
    }
    out
}

fn new_ftdi() -> ftdi::Device {
    ftdi::Device::new(&Board::Bbv2.info(), None).0
}

fn total_read(transfers: &[Transfer]) -> usize {
    transfers.iter().map(|t| t.read_len).sum()
}

fn total_notify(transfers: &[Transfer]) -> usize {
    transfers.iter().map(|t| t.notify).sum()
}

fn dr0() -> Path {
    get_path(State::RunTestIdle, State::ShiftDR)
}

fn dr1() -> Path {
    get_path(State::ShiftDR, State::RunTestIdle)
}

/// Each case: an operation and the level at which TDI rests before it.
fn byte_cases<'a>(data: &'a [u8]) -> Vec<(Option<Path>, Data<'a>, Option<Path>)> {
    let eight = Path { path: 245, len: 8 };
    let empty = Path { path: 0, len: 0 };
    let mut cases = Vec::new();
    for before in [None, Some(dr0()), Some(eight)] {
        for after in [None, Some(dr1()), Some(eight), Some(empty)] {
            cases.push((before, Data::Tx(data), after));
            cases.push((before, Data::TxRx(data), after));
            cases.push((before, Data::Rx(Bytes(data.len())), after));
            cases.push((before, Data::ConstantTx(false, Bytes(data.len())), after));
            cases.push((before, Data::ConstantTx(true, Bytes(data.len())), after));
        }
    }
    cases
}

#[test]
fn fake_cable_clocks_what_the_contract_says() {
    for data in [&[][..], &[0xa5][..], &[0x01, 0x80, 0x7f][..]] {
        for (before, d, after) in byte_cases(data) {
            let mut fake = FakeBackend::new(0);
            fake.bytes(before, d, after);
            let t = fake.flush();
            assert_eq!(decode_fake(&t), expected_bytes(before, &d, after, true, true));
            assert_eq!(total_read(&t), match d {
                Data::Rx(n) => n.0,
                Data::TxRx(b) => b.len(),
                _ => 0,
            });
        }
    }
}

#[test]
fn xpc_cable_clocks_what_the_contract_says() {
    for data in [&[][..], &[0xa5][..], &[0x01, 0x80, 0x7f][..]] {
        for (before, d, after) in byte_cases(data) {
            let mut cable = xpc::Device::new();
            cable.bytes(before, d, after);
            let t = cable.flush();
            assert_eq!(decode_xpc(&t), expected_bytes(before, &d, after, true, true));
            assert_eq!(total_read(&t), match d {
                Data::Rx(n) => n.0,
                Data::TxRx(b) => b.len(),
                _ => 0,
            });
        }
    }
}

#[test]
fn ftdi_cable_clocks_what_the_contract_says() {
    for data in [&[][..], &[0xa5][..], &[0x01, 0x80, 0x7f][..]] {
        for (before, d, after) in byte_cases(data) {
            let mut cable = new_ftdi();
            cable.bytes(before, d, after);
            let t = cable.flush();
            assert_eq!(decode_ftdi(&t, true), expected_bytes(before, &d, after, true, false));
            assert_eq!(total_read(&t), match d {
                Data::Rx(n) => n.0,
                Data::TxRx(b) => b.len(),
                _ => 0,
            });
        }
    }
}

#[test]
fn bit_shifts_agree_on_all_cables() {
    let eight = Path { path: 245, len: 8 };
    for len in [0u8, 1, 5, 6, 8, 9, 16, 31, 32] {
        for before in [None, Some(dr0())] {
            for after in [None, Some(dr1()), Some(eight)] {
                let data = 0xdead_beefu32;
                let want = expected(before, word_payload(data, len), after, true, false);
                let mut fake = FakeBackend::new(0);
                fake.bits(before, data, Bits(len), after);
                assert_eq!(decode_fake(&fake.flush()), want);
                let mut x = xpc::Device::new();
                x.bits(before, data, Bits(len), after);
                assert_eq!(decode_xpc(&x.flush()), want);
                let mut f = new_ftdi();
                f.bits(before, data, Bits(len), after);
                assert_eq!(decode_ftdi(&f.flush(), true), want);
            }
        }
    }
}

#[test]
fn tms_keeps_tdi_where_the_last_shift_left_it() {
    let exit = dr1();
    for last in [0x00u8, 0x80] {
        let level = last & 0x80 != 0;
        let mut want = expected_bytes(None, &Data::Tx(&[last]), Some(exit), true, true);
        want.extend(bits_of(Path::idle()).into_iter().map(|t| c(t, level, false)));
        let mut fake = FakeBackend::new(0);
        fake.bytes(None, Data::Tx(&[last]), Some(exit));
        fake.tms(Path::idle());
        assert_eq!(decode_fake(&fake.flush()), want);
        let mut x = xpc::Device::new();
        x.bytes(None, Data::Tx(&[last]), Some(exit));
        x.tms(Path::idle());
        assert_eq!(decode_xpc(&x.flush()), want);
        let mut f = new_ftdi();
        f.bytes(None, Data::Tx(&[last]), Some(exit));
        f.tms(Path::idle());
        assert_eq!(decode_ftdi(&f.flush(), true), want);
    }
}

#[test]
fn the_level_of_tdi_survives_a_flush() {
    let mut f = new_ftdi();
    f.bytes(None, Data::Tx(&[0x00]), None);
    let first = f.flush();
    f.bytes(None, Data::Rx(Bytes(1)), None);
    let second = f.flush();
    assert_eq!(decode_ftdi(&first, true), byte_payload(&[0], false));
    assert_eq!(decode_ftdi(&second, false), constant_payload(8, false, true));
    let mut x = xpc::Device::new();
    x.bytes(None, Data::Tx(&[0x00]), None);
    let _ = x.flush();
    x.bytes(None, Data::Rx(Bytes(1)), None);
    assert_eq!(decode_xpc(&x.flush()), constant_payload(8, false, true));
}

#[test]
fn ftdi_emits_the_documented_commands() {
    let mut f = new_ftdi();
    f.tms(Path::reset());
    assert_eq!(f.flush()[0].out, vec![0x4b, 4, 0x80 | 0x1f, 0x87]);
    let mut f = new_ftdi();
    f.bytes(None, Data::Tx(&[1, 2, 3]), None);
    assert_eq!(f.flush()[0].out, vec![0x19, 2, 0, 1, 2, 3, 0x87]);
    let mut f = new_ftdi();
    f.bytes(None, Data::Rx(Bytes(300)), None);
    let t = f.flush();
    assert_eq!(t[0].out, vec![0x2c, 0x2b, 0x01, 0x87]);
    assert_eq!(t[0].read_len, 300);
    let mut f = new_ftdi();
    f.bytes(None, Data::TxRx(&[9, 8]), None);
    assert_eq!(f.flush()[0].out, vec![0x3d, 1, 0, 9, 8, 0x87]);
    // the last bit rides on the path that leaves: 110, with TDI at bit 7
    let mut f = new_ftdi();
    f.bytes(None, Data::Tx(&[0x11, 0x80]), Some(dr1()));
    assert_eq!(
        f.flush()[0].out,
        vec![0x19, 0, 0, 0x11, 0x1b, 6, 0x80, 0x4b, 2, 0x80 | 0b011, 0x87]
    );
    // a read leaves on its last cycle too: two bytes, seven cycles, the path
    let mut f = new_ftdi();
    f.bytes(None, Data::Rx(Bytes(3)), Some(dr1()));
    let t = f.flush();
    assert_eq!(t[0].out, vec![0x2c, 1, 0, 0x2e, 6, 0x4b, 2, 0x80 | 0b011, 0x87]);
    assert_eq!(t[0].read_len, 3);
    let mut f = new_ftdi();
    f.bits(None, 0b10_1101, Bits(6), Some(dr1()));
    assert_eq!(f.flush()[0].out, vec![0x1b, 4, 0b10_1101, 0x4b, 2, 0x80 | 0b011, 0x87]);
}

#[test]
fn ftdi_splits_paths_of_eight_bits() {
    let mut f = new_ftdi();
    f.tms(Path { path: 245, len: 8 });
    // 245 = 11110101 is clocked first bit first: 1,1,1,1,0,1,0 and then 1
    assert_eq!(f.flush()[0].out, vec![0x4b, 6, 0x80 | 0b0101111, 0x4b, 0, 0x80 | 1, 0x87]);
}

#[test]
fn ftdi_chunks_long_shifts() {
    for len in [65535usize, 65536, 65537, 131072, 140001] {
        let data: Vec<u8> = (0..len).map(|i| (i * 7 + 3) as u8).collect();
        for after in [None, Some(dr1())] {
            let mut f = new_ftdi();
            f.notify(true);
            f.bytes(Some(dr0()), Data::Tx(&data), after);
            let t = f.flush();
            for x in &t {
                assert!(x.out.len() <= 65536 + 3 + 65536 + 3 + 16);
            }
            for x in &t[..t.len() - 1] {
                assert!(x.out.len() > 65536, "an exchange is closed when it is full");
            }
            let wire = decode_ftdi(&t, true);
            assert_eq!(wire.len(), 3 + 8 * len + after.map(|p| p.len as usize - 1).unwrap_or(0));
            assert_eq!(wire, expected_bytes(Some(dr0()), &Data::Tx(&data), after, true, false));
            for (i, cycle) in wire[3..3 + 8 * len].iter().enumerate() {
                assert_eq!(cycle.tdi, (data[i / 8] >> (i % 8)) & 1 == 1);
                assert_eq!(cycle.tms, after.is_some() && i == 8 * len - 1);
            }
            assert_eq!(total_notify(&t), len);
            assert_eq!(total_read(&t), 0);
        }
        let mut f = new_ftdi();
        f.bytes(None, Data::Rx(Bytes(len)), Some(dr1()));
        let t = f.flush();
        assert_eq!(total_read(&t), len);
        assert_eq!(t.len(), 1 + len / 65536);
        for x in &t[..t.len() - 1] {
            assert_eq!(x.read_len, 65536);
        }
        assert_eq!(
            decode_ftdi(&t, true),
            expected_bytes(None, &Data::Rx(Bytes(len)), Some(dr1()), true, false)
        );
        let mut f = new_ftdi();
        f.bytes(None, Data::TxRx(&data), Some(dr1()));
        let t = f.flush();
        assert_eq!(total_read(&t), len);
        assert!(t.len() >= 2 || len < 65536);
    }
}

#[test]
fn ftdi_sets_the_chip_up() {
    let (_, t) = ftdi::Device::new(&Board::Nexys4.info(), None);
    assert_eq!(t.out, vec![0x80, 0xe8, 0xeb, 0x82, 0x00, 0x60]);
    assert_eq!((t.read_len, t.notify, t.bits), (0, 0, 0));
    let (_, t) = ftdi::Device::new(&Board::Ikda.info(), Some(0x1234));
    assert_eq!(t.out, vec![0x80, 0x00, 0x00, 0x82, 0x00, 0x04, 0x8a, 0x86, 0x34, 0x12]);
}

#[test]
fn xpc_packs_four_cycles_into_two_bytes() {
    // TMS 1001, TDI 0101, sampled 1100, first cycle in bit 0
    let cycles = [
        c(true, true, false),
        c(false, false, false),
        c(false, true, true),
        c(true, false, true),
    ];
    assert_eq!(xpc::pack_cycles(&cycles), vec![0x95, 0xcf]);
    assert_eq!(xpc::pack_cycles(&cycles[..1]), vec![0x11, 0x01]);
    assert_eq!(xpc::pack_cycles(&[c(true, true, true); 5])[2..], [0x11, 0x11]);
    assert_eq!(xpc::pack_cycles(&[]), Vec::<u8>::new());
    let mut x = xpc::Device::new();
    for cy in cycles {
        // one cycle at a time through the driver: a path of one bit
        x.bits(None, cy.tdi as u32, Bits(1), None);
    }
    let t = x.flush();
    assert_eq!(t[0].bits, 4);
    assert_eq!(t[0].out, vec![0x05, 0x0f]);
}

#[test]
fn xpc_asks_for_no_exchange_without_cycles() {
    let mut x = xpc::Device::new();
    assert!(x.flush().is_empty());
    x.tms(Path { path: 0, len: 0 });
    assert!(x.flush().is_empty());
    x.tms(Path { path: 1, len: 1 });
    assert_eq!(x.flush().len(), 1);
    assert!(x.flush().is_empty());
    let mut f = new_ftdi();
    assert_eq!(f.flush()[0].out, vec![0x87]);
}

#[test]
fn xpc_packing_round_trips() {
    let mut seed = 0x1234_5678u32;
    for len in [0usize, 1, 2, 3, 4, 5, 7, 8, 9, 63, 64, 65, 1000] {
        let cycles: Vec<Cycle> = (0..len)
            .map(|_| {
                seed = seed.wrapping_mul(1664525).wrapping_add(1013904223);
                c(seed & 0x100 != 0, seed & 0x200 != 0, seed & 0x400 != 0)
            })
            .collect();
        let packed = xpc::pack_cycles(&cycles);
        assert_eq!(packed.len(), 2 * ((len + 3) / 4));
        assert_eq!(xpc::unpack_cycles(&packed, len), cycles);
    }
}

#[test]
fn xpc_closes_exchanges_at_its_threshold() {
    let data = vec![0x5au8; 20000];
    let mut x = xpc::Device::new();
    x.notify(true);
    x.bytes(Some(dr0()), Data::TxRx(&data), Some(dr1()));
    let t = x.flush();
    assert!(t.len() > 1);
    for e in &t {
        assert!(e.out.len() <= 8192 + 4);
        assert!(e.bits <= 65535);
    }
    for e in &t[..t.len() - 1] {
        assert!(e.out.len() >= 8192);
        assert_eq!(8 * e.read_len, xpc::unpack_cycles(&e.out, e.bits).iter().filter(|c| c.tdo).count());
    }
    assert_eq!(total_read(&t), 20000);
    assert_eq!(total_notify(&t), 20000);
    assert_eq!(
        decode_xpc(&t),
        expected_bytes(Some(dr0()), &Data::TxRx(&data), Some(dr1()), true, true)
    );
}

#[test]
fn progress_counts_written_bytes_while_switched_on() {
    let mut fake = FakeBackend::new(0);
    fake.bytes(None, Data::Tx(&[1, 2, 3]), None);
    fake.notify(true);
    fake.bytes(None, Data::Tx(&[1, 2]), None);
    fake.bytes(None, Data::TxRx(&[1, 2, 3, 4]), None);
    fake.bytes(None, Data::Rx(Bytes(9)), None);
    fake.bytes(None, Data::ConstantTx(true, Bytes(9)), None);
    fake.bits(None, 1, Bits(8), None);
    fake.notify(false);
    fake.bytes(None, Data::Tx(&[1]), None);
    let t = fake.flush();
    assert_eq!(total_notify(&t), 6);
    assert_eq!(total_read(&t), 13);
    assert_eq!(total_notify(&fake.flush()), 0);
}

#[test]
fn fake_device_answers_with_its_idcode() {
    let fake = FakeBackend::new(0x0362_d093);
    assert_eq!(fake.reply(0), Vec::<u8>::new());
    assert_eq!(fake.reply(3), vec![0xff, 0xff, 0xff]);
    assert_eq!(fake.reply(4), vec![0x93, 0xd0, 0x62, 0x03]);
    assert_eq!(fake.reply(6), vec![0x93, 0xd0, 0x62, 0x03, 0xff, 0xff]);
    for tms in [false, true] {
        for tdi in [false, true] {
            for tdo in [false, true] {
                let b = encode_cycle(c(tms, tdi, tdo));
                assert_eq!((b & 1 != 0, b & 2 != 0, b & 4 != 0), (tms, tdi, tdo));
            }
        }
    }
}

#[test]
fn waveform_draws_every_signal() {
    let cycles = [c(true, false, false), c(true, true, false), c(false, true, true)];
    let got = write_cycles(&cycles);
    let want = "\
┌Signals┐┌Waves─┐
│tck    ││┌┐┌┐┌┐│
│       ││┘└┘└┘└│
│tms    ││ ┌───┐│
│       ││─┘   └│
│tdi    ││   ┌──│
│       ││───┘  │
│tdo    ││     ┌│
│       ││─────┘│
└───────┘└──────┘
";
    assert_eq!(got, want);
    let empty = write_cycles(&[]);
    assert_eq!(empty.lines().next().unwrap(), "┌Signals┐┌Waves┐");
    assert_eq!(empty.lines().count(), 10);
}

#[test]
fn consume_waveform_forgets_what_it_drew() {
    let mut fake = FakeBackend::new(0);
    fake.tms(Path { path: 0b10, len: 2 });
    let _ = fake.flush();
    fake.add_bit(false, true, true);
    let first = fake.consume_waveform();
    assert_eq!(first, write_cycles(&[c(true, true, false), c(false, true, false), c(false, true, true)]));
    assert_eq!(fake.consume_waveform(), write_cycles(&[]));
    fake.add_bit(true, false, false);
    assert_eq!(fake.consume_waveform(), write_cycles(&[c(true, false, false)]));
    assert_eq!(decode_fake(&fake.flush()), vec![c(false, true, true), c(true, false, false)]);
}
