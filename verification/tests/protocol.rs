use nafa::backend::{Backend, Cycle, Data, Transfer};
use nafa::chain::{classify, select, Detector, Verdict};
use nafa::controller::{Command, Controller};
use nafa::devices::{find, get_devices, DeviceInfo, Specific};
use nafa::error::Error;
use nafa::fake_backend::FakeBackend;
use nafa::ftdi;
use nafa::ftdi::devices::Board;
use nafa::jtag::State;
use nafa::units::{Bits, Bytes};
use nafa::xilinx::_32bit::drp;
use nafa::xilinx::_32bit::info::{plan, probe, read, Probe, Read, S7, UP, US};
use nafa::xilinx::_32bit::registers::{Addr, OpCode, Type1};
use nafa::xilinx::_32bit::{
    bitstream_to_wire_order, commands, instruction, program, read_register, read_xadc, readback,
    wire_order_to_words,
};
use nafa::xilinx::zynq_32::info::ZP;
use nafa::xpc;

fn next(s: State, tms: bool) -> State {
    s.edges().get(tms)
}

fn decode_fake(transfers: &[Transfer]) -> Vec<Cycle> {
    let mut out = Vec::new();
    for t in transfers {
        for b in &t.out {
            out.push(Cycle { tms: b & 1 != 0, tdi: b & 2 != 0, tdo: b & 4 != 0 });
        }
    }
    out
}

fn decode_xpc(transfers: &[Transfer]) -> Vec<Cycle> {
    transfers.iter().flat_map(|t| xpc::unpack_cycles(&t.out, t.bits)).collect()
}

fn decode_ftdi(transfers: &[Transfer], held: bool) -> Vec<Cycle> {
    let mut held = held;
    let mut out = Vec::new();
    for t in transfers {
        let s = &t.out;
        let mut i = 0;
        while i < s.len() {
            match s[i] {
                0x87 => i += 1,
                0x4b => {
                    for k in 0..=s[i + 1] {
                        out.push(Cycle { tms: (s[i + 2] >> k) & 1 == 1, tdi: s[i + 2] & 0x80 != 0, tdo: false });
                    }
                    held = s[i + 2] & 0x80 != 0;
                    i += 3;
                }
                op @ (0x19 | 0x3d) => {
                    let n = s[i + 1] as usize + 256 * s[i + 2] as usize + 1;
                    for b in &s[i + 3..i + 3 + n] {
                        for k in 0..8 {
                            out.push(Cycle { tms: false, tdi: (b >> k) & 1 == 1, tdo: op == 0x3d });
                        }
                    }
                    held = s[i + 2 + n] & 0x80 != 0;
                    i += 3 + n;
                }
                0x2e => {
                    for _ in 0..=s[i + 1] {
                        out.push(Cycle { tms: false, tdi: held, tdo: true });
                    }
                    i += 2;
                }
                0x2c => {
                    let n = s[i + 1] as usize + 256 * s[i + 2] as usize + 1;
                    for _ in 0..8 * n {
                        out.push(Cycle { tms: false, tdi: held, tdo: true });
                    }
                    i += 3;
                }
                op @ (0x1b | 0x3f) => {
                    for k in 0..=s[i + 1] {
                        out.push(Cycle { tms: false, tdi: (s[i + 2] >> k) & 1 == 1, tdo: op == 0x3f });
                    }
                    held = (s[i + 2] >> s[i + 1]) & 1 == 1;
                    i += 3;
                }
                other => panic!("unknown command {other:02X}"),
            }
        }
    }
    out
}

/// One stay in a shift state: which register, the bits shifted in, and how
/// many of the cycles sampled TDO.
#[derive(Debug, PartialEq, Eq, Clone)]
struct Scan {
    ir: bool,
    tdi: Vec<bool>,
    sampled: usize,
}

/// What a device sees: the state the TAP ends in, the scans, and the states
/// in which the TAP rested with TMS low outside the shift states.
fn tap(cycles: &[Cycle], start: State) -> (State, Vec<Scan>) {
    let mut s = start;
    let mut scans: Vec<Scan> = Vec::new();
    let mut open = false;
    for c in cycles {
        if s == State::ShiftIR || s == State::ShiftDR {
            if !open {
                scans.push(Scan { ir: s == State::ShiftIR, tdi: vec![], sampled: 0 });
                open = true;
            }
            let scan = scans.last_mut().unwrap();
            scan.tdi.push(c.tdi);
            scan.sampled += c.tdo as usize;
        } else {
            open = false;
            assert!(!c.tdo, "TDO is sampled in a shift state only");
        }
        s = next(s, c.tms);
        if s != State::ShiftIR && s != State::ShiftDR {
            open = false;
        }
    }
    (s, scans)
}

fn bits(value: u64, len: usize) -> Vec<bool> {
    (0..len).map(|i| (value >> i) & 1 == 1).collect()
}

fn byte_bits(bytes: &[u8]) -> Vec<bool> {
    bytes.iter().flat_map(|b| (0..8).map(move |k| (b >> k) & 1 == 1)).collect()
}

fn ones(n: usize) -> Vec<bool> {
    vec![true; n]
}

fn dev(irlen: u8) -> DeviceInfo {
    DeviceInfo { irlen: Bits(irlen), name: "test", specific: Specific::Unknown }
}

fn known(idcode: u32) -> (u32, DeviceInfo) {
    (idcode, find(&get_devices(), idcode).unwrap())
}

fn total_read(t: &[Transfer]) -> usize {
    t.iter().map(|x| x.read_len).sum()
}

fn total_notify(t: &[Transfer]) -> usize {
    t.iter().map(|x| x.notify).sum()
}

fn fake_controller(before: &[u8], irlen: u8, after: &[u8]) -> Controller<FakeBackend> {
    let (cont, init) = Controller::new(
        FakeBackend::new(0),
        before.iter().map(|l| dev(*l)).collect(),
        (0x1234_5679, dev(irlen)),
        after.iter().map(|l| dev(*l)).collect(),
    );
    let (state, scans) = tap(&decode_fake(&init), State::PauseIR);
    assert_eq!(state, State::RunTestIdle);
    assert!(scans.is_empty());
    cont
}

#[test]
fn a_new_controller_resets_the_chain_and_idles() {
    for start in State::variants() {
        let (_, init) = Controller::new(FakeBackend::new(0), vec![], (1, dev(6)), vec![]);
        let cycles = decode_fake(&init);
        let tms: Vec<bool> = cycles.iter().map(|c| c.tms).collect();
        assert_eq!(tms, [vec![true; 10], vec![false]].concat());
        assert!(cycles.iter().all(|c| c.tdi && !c.tdo));
        assert_eq!(tap(&cycles, start).0, State::RunTestIdle);
        assert_eq!(total_read(&init), 0);
    }
}

#[test]
fn ir_padding_surrounds_the_instruction() {
    let mut cont = fake_controller(&[6], 6, &[12]);
    let v = 0b10_1101u32;
    let cycles = decode_fake(&cont.run(&[Command::ir(v)]));
    // into Shift-IR, 24 shifted bits less the one on the leaving edge, the
    // leaving path, and the path that reaches Run-Test-Idle from anywhere
    assert_eq!(cycles.len(), 4 + 23 + 3 + 6);
    let shifted = &cycles[4..28];
    let tdi: Vec<bool> = shifted.iter().map(|c| c.tdi).collect();
    assert_eq!(tdi, [ones(6), bits(v as u64, 6), ones(12)].concat());
    for (i, c) in shifted.iter().enumerate() {
        assert_eq!(c.tms, i == 23, "TMS rises on bit 23 and on no bit before");
        assert!(!c.tdo);
    }
    let (state, scans) = tap(&cycles, State::RunTestIdle);
    assert_eq!(state, State::RunTestIdle);
    assert_eq!(scans, vec![Scan { ir: true, tdi, sampled: 0 }]);
}

#[test]
fn dr_padding_is_one_bit_per_neighbour() {
    let mut cont = fake_controller(&[6, 8], 6, &[10]);
    let t = cont.run(&[
        Command::dr_tx(&[0xa5, 0x01]),
        Command::dr_rx(Bytes(3)),
        Command::dr_txrx(&[0x80]),
        Command::idle(Bytes(2)),
    ]);
    assert_eq!(total_read(&t), 4);
    let cycles = decode_fake(&t);
    let (state, scans) = tap(&cycles, State::RunTestIdle);
    assert_eq!(state, State::RunTestIdle);
    assert_eq!(
        scans,
        vec![
            Scan { ir: false, tdi: [ones(2), byte_bits(&[0xa5, 0x01]), ones(1)].concat(), sampled: 0 },
            Scan { ir: false, tdi: ones(2 + 24 + 1), sampled: 24 },
            Scan { ir: false, tdi: [ones(2), byte_bits(&[0x80]), ones(1)].concat(), sampled: 8 },
        ]
    );
    // the idle command: sixteen cycles at rest with TDI high
    let idle = &cycles[cycles.len() - 6 - 16..cycles.len() - 6];
    assert!(idle.iter().all(|c| !c.tms && c.tdi && !c.tdo));
}

#[test]
fn a_read_without_neighbours_is_whole_on_every_cable() {
    let commands = [Command::ir(0b00_1001), Command::dr_rx(Bytes(4)), Command::dr_txrx(&[0xf0, 0x0f])];
    let target = (0x0362_d093, dev(6));

    // TDI rests where the instruction left it while the read shifts
    let (mut fake, _) = Controller::new(FakeBackend::new(0), vec![], target, vec![]);
    let t = fake.run(&commands);
    let (state, scans) = tap(&decode_fake(&t), State::RunTestIdle);
    assert_eq!(state, State::RunTestIdle);
    assert_eq!(scans[1], Scan { ir: false, tdi: vec![false; 32], sampled: 32 });
    let high = fake.run(&[Command::ir(0b10_1001), Command::dr_rx(Bytes(4))]);
    assert_eq!(tap(&decode_fake(&high), State::RunTestIdle).1[1].tdi, ones(32));
    assert_eq!(scans[2], Scan { ir: false, tdi: byte_bits(&[0xf0, 0x0f]), sampled: 16 });
    assert_eq!(total_read(&t), 6);

    let (mut x, _) = Controller::new(xpc::Device::new(), vec![], target, vec![]);
    let t = x.run(&commands);
    assert_eq!(tap(&decode_xpc(&t), State::RunTestIdle), (state, scans.clone()));
    assert_eq!(total_read(&t), 6);

    // the FTDI chip cannot sample on the leaving edge: it misses the last
    // bit of a read and of a write that reads
    let (f, _) = ftdi::Device::new(&Board::Bbv2.info(), None);
    let (mut f, init) = Controller::new(f, vec![], target, vec![]);
    assert_eq!(tap(&decode_ftdi(&init, true), State::Exit2DR).0, State::RunTestIdle);
    let t = f.run(&commands);
    let (state, scans) = tap(&decode_ftdi(&t, true), State::RunTestIdle);
    assert_eq!(state, State::RunTestIdle);
    assert_eq!(scans[0], Scan { ir: true, tdi: bits(0b00_1001, 6), sampled: 0 });
    assert_eq!(scans[1], Scan { ir: false, tdi: vec![false; 32], sampled: 31 });
    assert_eq!(scans[2], Scan { ir: false, tdi: byte_bits(&[0xf0, 0x0f]), sampled: 15 });
    assert_eq!(total_read(&t), 6);
}

#[test]
fn every_batch_ends_in_run_test_idle() {
    let data: Vec<u8> = (0..300u32).map(|i| (i * 31) as u8).collect();
    let batches: Vec<Vec<Command>> = vec![
        vec![],
        vec![Command::idle(Bytes(0))],
        vec![Command::ir(1), Command::dr_tx(&[]), Command::dr_rx(Bytes(0)), Command::dr_txrx(&[])],
        vec![Command::ir(0x3f), Command::dr_tx(&data), Command::idle(Bytes(10)), Command::dr_rx(Bytes(7))],
        vec![Command::dr_txrx(&data), Command::dr_tx_with_notification(&data)],
    ];
    for (before, after) in [(vec![], vec![]), (vec![6u8], vec![]), (vec![], vec![12u8]), (vec![6, 32, 1], vec![8, 8])] {
        let mut cont = fake_controller(&before, 6, &after);
        for batch in &batches {
            let t = cont.run(batch);
            let (state, scans) = tap(&decode_fake(&t), State::RunTestIdle);
            assert_eq!(state, State::RunTestIdle);
            let shifting = batch.iter().filter(|c| !format!("{c:?}").contains("Idle")).count();
            assert_eq!(scans.len(), shifting);
            let want: usize = scans.iter().map(|s| s.sampled).sum();
            assert_eq!(8 * total_read(&t), want);
        }
    }
}

#[test]
fn the_output_of_a_batch_is_as_long_as_its_reads() {
    let mut cont = fake_controller(&[], 6, &[]);
    let t = cont.run(&[Command::dr_rx(Bytes(4)), Command::dr_tx(&[1, 2]), Command::dr_txrx(&[1, 2, 3])]);
    assert_eq!(total_read(&t), 7);
    assert_eq!(cont.data().len(), 0);
    assert_eq!(cont.complete(vec![0; 6]), Err(Error::ShortRead { expected: 7, got: 6 }));
    assert_eq!(cont.complete(vec![0; 8]), Err(Error::ShortRead { expected: 7, got: 8 }));
    assert_eq!(cont.data().len(), 0);
    assert_eq!(cont.complete(vec![1, 2, 3, 4, 5, 6, 7]), Ok(7));
    assert_eq!(cont.data(), &vec![1, 2, 3, 4, 5, 6, 7]);
    let t = cont.run(&[]);
    assert_eq!(total_read(&t), 0);
    assert_eq!(cont.data().len(), 0, "a new batch drops the output of the one before");
    assert_eq!(cont.complete(vec![]), Ok(0));
}

#[test]
fn notifications_last_for_one_call() {
    let mut cont = fake_controller(&[], 6, &[]);
    let batch = [
        Command::dr_tx(&[1, 2, 3]),
        Command::dr_tx_with_notification(&[1, 2, 3, 4]),
        Command::dr_txrx_with_notification(&[1]),
        Command::dr_rx_with_notification(Bytes(9)),
    ];
    assert_eq!(total_notify(&cont.run(&batch)), 0);
    assert_eq!(total_notify(&cont.with_notifications(&batch)), 5);
    assert_eq!(total_notify(&cont.run(&batch)), 0);
    assert_eq!(cont.info().irlen.0, 6);
}

fn reply(words: &[u32]) -> Vec<u8> {
    words.iter().flat_map(|w| w.to_le_bytes()).collect()
}

/// Run a detection against canned replies.
fn detect<B: Backend>(backend: &mut B, replies: &[Vec<u8>]) -> Result<Vec<(u32, DeviceInfo)>, Error> {
    let devices = get_devices();
    let mut det = Detector::new();
    for r in replies {
        assert!(!det.is_done());
        let t = det.request(backend);
        assert_eq!(total_read(&t), r.len());
        if det.advance(&devices, r)? {
            assert!(det.is_done());
            return Ok(det.found().clone());
        }
    }
    panic!("the replies do not end the chain");
}

#[test]
fn single_device_chain() {
    let mut fake = FakeBackend::new(0x0362_d093);
    let replies = vec![fake.reply(4), fake.reply(8)];
    assert_eq!(replies[1], reply(&[0x0362_d093, 0xffff_ffff]));
    let chain = detect(&mut fake, &replies).unwrap();
    assert_eq!(chain.len(), 1);
    assert_eq!(chain[0].0, 0x0362_d093);
    assert_eq!(chain[0].1.name, "XC7A35T");
    assert_eq!(chain[0].1.irlen.0, 6);
    let sel = select(&chain, None).unwrap();
    assert!(sel.before.is_empty() && sel.after.is_empty());
    assert_eq!(sel.target.1.name, "XC7A35T");
}

#[test]
fn detection_reads_one_more_code_each_round() {
    let mut fake = FakeBackend::new(0);
    let devices = get_devices();
    let mut det = Detector::new();
    let t = det.request(&mut fake);
    let (state, scans) = tap(&decode_fake(&t), State::Exit1IR);
    assert_eq!(state, State::RunTestIdle);
    assert_eq!(scans, vec![Scan { ir: false, tdi: ones(32), sampled: 32 }]);
    assert_eq!(det.advance(&devices, &reply(&[0x0362_d093])), Ok(false));
    let t = det.request(&mut fake);
    let cycles = decode_fake(&t);
    assert_eq!(cycles.len(), 1 + 3 + 64 + 2, "the chain is reset once");
    assert_eq!(cycles[0], Cycle { tms: false, tdi: true, tdo: false });
    let (state, scans) = tap(&cycles, State::RunTestIdle);
    assert_eq!(state, State::RunTestIdle);
    assert_eq!(scans, vec![Scan { ir: false, tdi: ones(64), sampled: 64 }]);
    assert_eq!(det.advance(&devices, &reply(&[0x0362_d093])), Err(Error::ShortRead { expected: 8, got: 4 }));
    assert_eq!(det.found().len(), 1);
    assert_eq!(det.advance(&devices, &reply(&[0x0362_d093, 0xffff_ffff])), Ok(true));
}

#[test]
fn detection_raises_tdi_before_it_reads() {
    for last in [0x00u8, 0x80] {
        let mut fake = FakeBackend::new(0);
        fake.bytes(None, Data::Tx(&[last]), None);
        let _ = fake.flush();
        let t = Detector::new().request(&mut fake);
        let (state, scans) = tap(&decode_fake(&t), State::PauseDR);
        assert_eq!(state, State::RunTestIdle);
        assert_eq!(scans, vec![Scan { ir: false, tdi: ones(32), sampled: 32 }]);
        let (f, _) = ftdi::Device::new(&Board::Bbv2.info(), None);
        let mut f = f;
        f.bytes(None, Data::Tx(&[last]), None);
        let _ = f.flush();
        let t = Detector::new().request(&mut f);
        let (state, scans) = tap(&decode_ftdi(&t, last != 0), State::PauseDR);
        assert_eq!(state, State::RunTestIdle);
        assert_eq!(scans, vec![Scan { ir: false, tdi: ones(32), sampled: 31 }]);
    }
}

#[test]
fn two_device_chain() {
    let words = [0x0362_d093, 0x04a6_3093, 0xffff_ffff];
    let replies = vec![reply(&words[..1]), reply(&words[..2]), reply(&words[..3])];
    let chain = detect(&mut xpc::Device::new(), &replies).unwrap();
    assert_eq!(chain.len(), 2);
    let sel = select(&chain, Some(1)).unwrap();
    assert_eq!(sel.before.len(), 1);
    assert_eq!(sel.before[0].name, "XC7A35T");
    assert_eq!(sel.target.0, 0x04a6_3093);
    assert_eq!(sel.target.1.name, "XCKU3P");
    assert!(sel.after.is_empty());
    let sel = select(&chain, Some(0)).unwrap();
    assert!(sel.before.is_empty());
    assert_eq!(sel.after[0].name, "XCKU3P");
    match select(&chain, None) {
        Err(e @ Error::MultipleDevices(_)) => {
            assert_eq!(e, Error::MultipleDevices(vec![0x0362_d093, 0x04a6_3093]));
            assert_eq!(e.message(), "multiple devices detected on jtag chain: [0362D093, 04A63093]");
        }
        _ => panic!("two devices and no choice"),
    }
    assert!(matches!(select(&chain, Some(2)), Err(Error::NoSuchDevice(2))));
    assert!(matches!(select(&vec![], None), Err(Error::NoDevices)));
    assert!(matches!(select(&vec![], Some(0)), Err(Error::NoDevices)));
}

#[test]
fn chains_of_more_than_32_neighbours_are_refused() {
    let one = known(0x0362_d093);
    let chain = vec![one; 40];
    assert!(matches!(select(&chain, Some(33)), Err(Error::ChainTooLong)));
    assert!(matches!(select(&chain, Some(6)), Err(Error::ChainTooLong)));
    let sel = select(&chain, Some(7)).unwrap();
    assert_eq!((sel.before.len(), sel.after.len()), (7, 32));
    let sel = select(&chain, Some(32)).unwrap();
    assert_eq!((sel.before.len(), sel.after.len()), (32, 7));
}

#[test]
fn bypass_is_rejected() {
    let err = detect(&mut FakeBackend::new(0), &[reply(&[0x1234_5678])]).unwrap_err();
    assert_eq!(err, Error::Bypass(0x1234_5678));
    assert_eq!(err.message(), "device in BYPASS detected: 12345678");
    let err = detect(&mut FakeBackend::new(0), &[reply(&[0x0362_d093]), reply(&[0x0362_d093, 0])]).unwrap_err();
    assert_eq!(err, Error::Bypass(0));
}

#[test]
fn unknown_devices_are_rejected() {
    let err = detect(&mut FakeBackend::new(0), &[reply(&[0x0bad_c0d1])]).unwrap_err();
    assert_eq!(err, Error::UnknownIdcode(0x0bad_c0d1));
    assert_eq!(err.message(), "idcode 0BADC0D1 not found in device list");
    let mut det = Detector::new();
    assert_eq!(det.advance(&get_devices(), &[]), Err(Error::ShortRead { expected: 4, got: 0 }));
    assert_eq!(det.advance(&get_devices(), &[0; 5]), Err(Error::ShortRead { expected: 4, got: 5 }));
}

#[test]
fn zynq_ultrascale_plus_is_woken() {
    let mut fake = FakeBackend::new(0);
    let devices = get_devices();
    let mut det = Detector::new();
    let _ = det.request(&mut fake);
    assert_eq!(det.advance(&devices, &reply(&[0x5ba0_0126])), Ok(false));
    assert!(det.found().is_empty());
    let t = det.request(&mut fake);
    assert_eq!(total_read(&t), 4);
    let (state, scans) = tap(&decode_fake(&t), State::RunTestIdle);
    assert_eq!(state, State::RunTestIdle);
    assert_eq!(
        scans,
        vec![
            Scan { ir: true, tdi: bits(0b100000_100100_1111, 16), sampled: 0 },
            Scan { ir: false, tdi: byte_bits(&[3, 0, 0, 0]), sampled: 0 },
            Scan { ir: false, tdi: ones(32), sampled: 0 },
            Scan { ir: false, tdi: ones(32), sampled: 32 },
        ]
    );
    assert_eq!(det.advance(&devices, &reply(&[0x1471_0093])), Ok(false));
    let _ = det.request(&mut fake);
    assert_eq!(det.advance(&devices, &reply(&[0x1471_0093, 0xffff_ffff])), Ok(true));
    assert_eq!(det.found().len(), 1);
    assert_eq!(det.found()[0].0, 0x1471_0093);
    assert_eq!(det.found()[0].1.name, "XCZU3EG");

    let woken = |answer: u32| {
        detect(&mut FakeBackend::new(0), &[reply(&[0x126]), reply(&[answer])]).unwrap_err()
    };
    assert_eq!(woken(0xffff_ffff), Error::WakeEndOfChain);
    assert_eq!(woken(0x1471_0092), Error::WakeBypass);
    assert_eq!(woken(0x0000_0127), Error::UnknownIdcode(0x127));
}

#[test]
fn long_instruction_registers_and_long_chains_are_rejected() {
    let devices = get_devices();
    assert!(devices.values().all(|info| info.irlen.0 <= 32));
    let long = 0x036d_b093;
    let mut wide = get_devices();
    wide.insert(long, dev(38));
    let mut det = Detector::new();
    let _ = det.request(&mut FakeBackend::new(0));
    assert_eq!(det.advance(&wide, &reply(&[long])), Err(Error::IrTooLong(long)));
    assert_eq!(det.advance(&devices, &reply(&[long])), Err(Error::UnknownIdcode(long)));

    let mut fake = FakeBackend::new(0);
    let mut det = Detector::new();
    let mut words = Vec::new();
    for _ in 0..65 {
        words.push(0x0362_d093);
        let t = det.request(&mut fake);
        assert_eq!(total_read(&t), 4 * words.len());
        assert_eq!(det.advance(&devices, &reply(&words)), Ok(false));
    }
    assert_eq!(det.found().len(), 65);
    words.push(0x0362_d093);
    let _ = det.request(&mut fake);
    assert_eq!(det.advance(&devices, &reply(&words)), Err(Error::ChainTooLong));
    assert_eq!(det.found().len(), 65);
    *words.last_mut().unwrap() = 0xffff_ffff;
    assert_eq!(det.advance(&devices, &reply(&words)), Ok(true));
}

#[test]
fn words_are_classified() {
    assert_eq!(classify(0xffff_ffff, true), Verdict::End);
    assert_eq!(classify(0xffff_ffff, false), Verdict::End);
    assert_eq!(classify(0x0000_0126, true), Verdict::Wake);
    assert_eq!(classify(0xabcd_e126, true), Verdict::Wake);
    assert_eq!(classify(0x0000_0126, false), Verdict::Bypass);
    assert_eq!(classify(0x0000_0000, true), Verdict::Bypass);
    assert_eq!(classify(0x0362_d093, true), Verdict::Device);
    assert_eq!(classify(0x0000_0127, true), Verdict::Device);
}

fn xilinx_controller(idcode: u32) -> Controller<FakeBackend> {
    Controller::new(FakeBackend::new(idcode), vec![], known(idcode), vec![]).0
}

#[test]
fn reading_a_register_goes_in_through_cfg_in_and_out_through_cfg_out() {
    let mut cont = xilinx_controller(0x0362_d093);
    let t = read_register(&mut cont, Type1::new(OpCode::Read, Addr::Stat, 1)).unwrap();
    assert_eq!(total_read(&t), 4);
    let (state, scans) = tap(&decode_fake(&t), State::RunTestIdle);
    assert_eq!(state, State::RunTestIdle);
    let words = [0xaa99_5566u32, 0x2000_0000, 0x2800_e001, 0x2000_0000, 0x2000_0000];
    let wire: Vec<u8> = words.iter().flat_map(|w| w.to_be_bytes()).map(u8::reverse_bits).collect();
    assert_eq!(
        scans,
        vec![
            Scan { ir: true, tdi: bits(0b000101, 6), sampled: 0 },
            Scan { ir: false, tdi: byte_bits(&wire), sampled: 0 },
            Scan { ir: true, tdi: bits(0b000100, 6), sampled: 0 },
            Scan { ir: false, tdi: vec![false; 32], sampled: 32 },
        ]
    );
    assert_eq!(cont.complete(vec![0x02, 0x00, 0x88, 0x3f]), Ok(4));
    assert_eq!(wire_order_to_words(cont.data()), vec![0x4000_11fc]);
}

#[test]
fn readback_announces_more_than_it_reads() {
    let mut cont = xilinx_controller(0x0362_d093);
    let t = readback(&mut cont, Bytes(1000)).unwrap();
    assert_eq!(total_read(&t), 1000);
    let (_, scans) = tap(&decode_fake(&t), State::RunTestIdle);
    let words = [
        0xaa99_5566u32, 0x2000_0000, 0x3000_8001, 0x0000_0004, 0x3000_2001, 0x0000_0000,
        0x2800_6000, 0x48ff_ffff, 0x2000_0000, 0x2000_0000,
    ];
    let wire: Vec<u8> = words.iter().flat_map(|w| w.to_be_bytes()).map(u8::reverse_bits).collect();
    assert_eq!(scans[0].tdi, bits(commands::CFG_IN as u64, 6));
    assert_eq!(scans[1].tdi, byte_bits(&wire));
    assert_eq!(scans[2].tdi, bits(commands::CFG_OUT as u64, 6));
    assert_eq!((scans[3].tdi.len(), scans[3].sampled), (8000, 8000));
}

#[test]
fn programming_shuts_down_shifts_and_starts() {
    let mut cont = xilinx_controller(0x0362_d093);
    let data: Vec<u8> = (0..100u8).collect();
    let quiet = program(&mut cont, &data, false).unwrap();
    assert_eq!(total_notify(&quiet), 0);
    let t = program(&mut cont, &data, true).unwrap();
    assert_eq!(total_notify(&t), 100);
    assert_eq!(total_read(&t), 0);
    assert_eq!(tap(&decode_fake(&t), State::RunTestIdle), tap(&decode_fake(&quiet), State::RunTestIdle));
    let (state, scans) = tap(&decode_fake(&t), State::RunTestIdle);
    assert_eq!(state, State::RunTestIdle);
    assert_eq!(
        scans,
        vec![
            Scan { ir: true, tdi: bits(commands::JSHUTDOWN as u64, 6), sampled: 0 },
            Scan { ir: true, tdi: bits(commands::CFG_IN as u64, 6), sampled: 0 },
            Scan { ir: false, tdi: byte_bits(&data), sampled: 0 },
            Scan { ir: true, tdi: bits(commands::JSTART as u64, 6), sampled: 0 },
        ]
    );
}

#[test]
fn the_converter_is_read_one_access_behind() {
    let mut cont = xilinx_controller(0x0362_d093);
    let regs = [
        drp::Command { cmd: drp::Cmd::Read, addr: drp::Addr::Temperature, data: 0 },
        drp::Command { cmd: drp::Cmd::Read, addr: drp::Addr::VccInt, data: 0 },
        drp::Command { cmd: drp::Cmd::Write, addr: drp::Addr::Flag, data: 0xbeef },
    ];
    let t = read_xadc(&mut cont, &regs).unwrap();
    assert_eq!(total_read(&t), 16);
    let cycles = decode_fake(&t);
    let (state, scans) = tap(&cycles, State::RunTestIdle);
    assert_eq!(state, State::RunTestIdle);
    assert_eq!(
        scans,
        vec![
            Scan { ir: true, tdi: bits(0x37, 6), sampled: 0 },
            Scan { ir: false, tdi: bits(0x0400_0000, 32), sampled: 32 },
            Scan { ir: false, tdi: bits(0x0401_0000, 32), sampled: 32 },
            Scan { ir: false, tdi: bits(0x083f_beef, 32), sampled: 32 },
            Scan { ir: false, tdi: bits(0xffff_ffff, 32), sampled: 32 },
        ]
    );
    // ten bytes' time at rest after every access
    let resting = cycles.iter().filter(|c| !c.tms && c.tdi && !c.tdo).count();
    assert!(resting >= 3 * 80);
    let none = read_xadc(&mut cont, &[]).unwrap();
    assert_eq!(total_read(&none), 4);
}

#[test]
fn the_protocol_is_refused_to_other_devices() {
    let (mut cont, _) = Controller::new(FakeBackend::new(0), vec![], known(0x0401_d093), vec![]);
    assert_eq!(cont.info().name, "XC6SLX150");
    let reg = Type1::new(OpCode::Read, Addr::Stat, 1);
    assert_eq!(read_register(&mut cont, reg).unwrap_err(), Error::Unsupported);
    assert_eq!(readback(&mut cont, Bytes(4)).unwrap_err(), Error::Unsupported);
    assert_eq!(program(&mut cont, &[0], true).unwrap_err(), Error::Unsupported);
    assert_eq!(read_xadc(&mut cont, &[]).unwrap_err(), Error::Unsupported);
    let p = Probe::Jtag { inst: commands::IDCODE, len: 4, slr: None };
    assert_eq!(probe(&mut cont, p).unwrap_err(), Error::Unsupported);
    assert_eq!(Error::Unsupported.message(), "the device does not offer this operation");
}

#[test]
fn instructions_fill_the_slots() {
    assert_eq!(instruction(6, 5, None), 5);
    assert_eq!(instruction(6, 5, Some(0)), 5);
    assert_eq!(instruction(6, 0xc5, None), 5);
    assert_eq!(instruction(12, 5, None), 0x145);
    assert_eq!(instruction(18, 5, Some(1)), 0x24 | 5 << 6 | 0x24 << 12);
    assert_eq!(instruction(24, 0x3f, Some(3)), 0x24 | 0x24 << 6 | 0x24 << 12 | 0x3f << 18);
    assert_eq!(instruction(30, 9, None), 9 | 9 << 6 | 9 << 12 | 9 << 18 | 9 << 24);
    assert_eq!(instruction(12, 9, Some(7)), 0x24 | 0x24 << 6);
    assert_eq!(nafa::xilinx::zynq_32::duplicate(9), 9 << 6 | 9);
    assert_eq!(nafa::xilinx::zynq_32::duplicate(0xff), 0xfff);
}

#[test]
fn a_zynq_takes_its_instructions_in_both_halves() {
    let mut cont = xilinx_controller(0x1471_0093);
    assert_eq!(cont.info().name, "XCZU3EG");
    let reg = Type1::new(OpCode::Read, Addr::Idcode, 1);
    let t = nafa::xilinx::zynq_32::read_device_register(&mut cont, reg).unwrap();
    assert_eq!(total_read(&t), 4);
    let (state, scans) = tap(&decode_fake(&t), State::RunTestIdle);
    assert_eq!(state, State::RunTestIdle);
    assert_eq!(scans[0].tdi, bits(nafa::xilinx::zynq_32::duplicate(commands::CFG_IN) as u64, 12));
    assert_eq!(scans[2].tdi, bits(nafa::xilinx::zynq_32::duplicate(commands::CFG_OUT) as u64, 12));
    assert_eq!(scans[3].sampled, 32);
}

#[test]
fn probes_address_one_region() {
    let mut cont = xilinx_controller(0x0380_f093);
    assert_eq!(cont.info().name, "XCKU085");
    let t = probe(&mut cont, Probe::Jtag { inst: commands::FUSE_DNA, len: 12, slr: Some(1) }).unwrap();
    assert_eq!(total_read(&t), 12);
    let (_, scans) = tap(&decode_fake(&t), State::RunTestIdle);
    assert_eq!(scans[0], Scan { ir: true, tdi: bits(0x24 | 0x32 << 6, 12), sampled: 0 });
    assert_eq!(scans[1].sampled, 96);
    let t = probe(&mut cont, Probe::Register { addr: Addr::Idcode, slr: Some(0) }).unwrap();
    assert_eq!(total_read(&t), 4);
    let (_, scans) = tap(&decode_fake(&t), State::RunTestIdle);
    assert_eq!(scans[0].tdi, bits(0x05 | 0x24 << 6, 12));
    assert_eq!(scans[2].tdi, bits(0x04 | 0x24 << 6, 12));
    let wire = bitstream_to_wire_order(&[0xaa99_5566, 0x2000_0000, 0x2801_8001, 0x2000_0000, 0x2000_0000]);
    assert_eq!(scans[1].tdi, byte_bits(&wire));
}

fn replies_for<R: Read>(num_slr: u8) -> Vec<Vec<u8>> {
    plan::<R>(num_slr)
        .iter()
        .enumerate()
        .map(|(i, p)| (0..p.reply_len()).map(|k| (i * 16 + k) as u8).collect())
        .collect()
}

#[test]
fn snapshots_are_read_from_the_replies_to_their_plan() {
    assert_eq!(plan::<S7>(1).len(), 1 + 9 + 11);
    assert_eq!(plan::<US>(3).len(), 1 + 3 * 12 + 3 * 11);
    assert_eq!(plan::<UP>(0).len(), 1);
    assert_eq!(plan::<ZP>(5).len(), 1 + 12 + 11);
    let p = plan::<US>(2);
    assert_eq!(p[0], Probe::Jtag { inst: commands::FUSE_CNTL, len: 3, slr: Some(0) });
    assert_eq!(p[1], Probe::Jtag { inst: commands::IDCODE, len: 4, slr: Some(0) });
    assert_eq!(p[13], Probe::Jtag { inst: commands::IDCODE, len: 4, slr: Some(1) });
    assert_eq!(p[25], Probe::Register { addr: Addr::Ctl0, slr: Some(0) });
    assert_eq!(p[46], Probe::Register { addr: Addr::Bspi, slr: Some(1) });
    assert_eq!(plan::<ZP>(1)[2], Probe::Jtag { inst: commands::USERCODE, len: 4, slr: None });
    assert_eq!(plan::<S7>(1)[0], Probe::Jtag { inst: commands::FUSE_CNTL, len: 2, slr: Some(0) });

    let replies = replies_for::<US>(2);
    let us: US = read(2, &replies).unwrap();
    assert_eq!(us.jtag.device.cntl, [0, 1, 2]);
    assert_eq!(us.jtag.slrs.len(), 2);
    assert_eq!(us.jtag.slrs[0].idcode, [16, 17, 18, 19]);
    assert_eq!(us.jtag.slrs[1].fuse_sec, [(20 * 16) as u8, (20 * 16 + 1) as u8]);
    assert_eq!(us.jtag.slrs[1].user4[0], (24 * 16) as u8);
    assert_eq!(us.registers.slrs.len(), 2);
    let ctl0: Vec<u8> = replies[25].iter().map(|b| b.reverse_bits()).collect();
    assert_eq!(us.registers.slrs[0].ctl0, u32::from_be_bytes([ctl0[0], ctl0[1], ctl0[2], ctl0[3]]));
    assert_eq!(us.registers.slrs[1].bspi, wire_order_to_words(&replies[46])[0]);

    let s7: S7 = read(1, &replies_for::<S7>(1)).unwrap();
    assert_eq!(s7.jtag.slrs[0].fuse_key.len(), 32);
    assert_eq!(s7.jtag.slrs[0].fuse_dna[7], 3 * 16 + 7);
    let up: UP = read(1, &replies_for::<UP>(1)).unwrap();
    assert_eq!(up.jtag.device.cntl, [0, 1, 2, 3]);
    let zp: ZP = read(1, &replies_for::<ZP>(1)).unwrap();
    assert_eq!(zp.jtag.slrs.len(), 1);
    assert_eq!(zp.registers.slrs[0].stat, wire_order_to_words(&replies_for::<ZP>(1)[14])[0]);

    let mut short = replies.clone();
    short[7].pop();
    assert!(read::<US>(2, &short).is_none());
    let mut long = replies.clone();
    long[40].push(0);
    assert!(read::<US>(2, &long).is_none());
    assert!(read::<US>(1, &replies).is_none());
    assert!(read::<US>(2, &replies[1..]).is_none());
    assert!(read::<UP>(2, &replies).is_none(), "the device register of UltraScale+ holds four bytes");
    assert!(read::<UP>(0, &[vec![0; 4]]).is_some());
}
