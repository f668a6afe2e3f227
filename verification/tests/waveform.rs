use esp32_xvc::jtag::pins::{
    configure_tdo_input, read_tdo, tck_high_us, tck_low_us, tdo_sample_us, PinOp, PinStep,
    INPUT_ENABLE, TCK_MASK, TDI_MASK, TDO_MASK, TMS_MASK,
};
use esp32_xvc::jtag::scan::ShiftBits;
use esp32_xvc::jtag::tap::ResetTap;

struct Lines {
    level: u32,
    edges: Vec<(bool, bool)>,
    time_us: u64,
    polls: u32,
}

impl Lines {
    fn new() -> Self {
        Lines { level: 0, edges: Vec::new(), time_us: 0, polls: 0 }
    }

    fn perform(&mut self, op: PinOp) {
        let before = self.level;
        match op {
            PinOp::SetHigh { mask } => self.level |= mask,
            PinOp::SetLow { mask } => self.level &= !mask,
            PinOp::SetPins { set_mask, clear_mask } => {
                self.level = (self.level & !clear_mask) | set_mask;
            }
            PinOp::Delay { us } => self.time_us += us as u64,
            PinOp::PollAbort => self.polls += 1,
            PinOp::Yield | PinOp::Sleep { .. } | PinOp::SampleTdo => {}
        }
        if before & TCK_MASK == 0 && self.level & TCK_MASK != 0 {
            self.edges.push((self.level & TMS_MASK != 0, self.level & TDI_MASK != 0));
        }
    }
}

#[test]
fn cycle_is_split_into_its_parts() {
    assert_eq!((tck_high_us(0), tck_low_us(0), tdo_sample_us(0)), (1, 0, 1));
    assert_eq!((tck_high_us(1), tck_low_us(1), tdo_sample_us(1)), (1, 0, 1));
    assert_eq!((tck_high_us(5), tck_low_us(5), tdo_sample_us(5)), (3, 2, 1));
    assert_eq!((tck_high_us(1_000), tck_low_us(1_000), tdo_sample_us(1_000)), (500, 500, 250));
    assert_eq!(tck_high_us(u32::MAX), 0x8000_0000);
}

#[test]
fn tdo_is_one_bit_of_the_register() {
    assert!(read_tdo(TDO_MASK));
    assert!(!read_tdo(!TDO_MASK));
}

#[test]
fn pin_is_configured_once() {
    assert_eq!(configure_tdo_input(0x0000_1000), Some(0x0000_1000 | INPUT_ENABLE));
    assert_eq!(configure_tdo_input(0x0000_1000 | INPUT_ENABLE), None);
}

#[test]
fn reset_is_eight_high_cycles_and_a_low_one() {
    for period in [1, 101] {
        let mut reset = ResetTap::new(period);
        let mut lines = Lines::new();
        let mut yields = 0;
        loop {
            match reset.step(false) {
                PinStep::Do(op) => {
                    yields += (op == PinOp::Yield) as u32;
                    lines.perform(op);
                }
                PinStep::Done { succeeded } => {
                    assert!(succeeded);
                    break;
                }
            }
        }
        let mut expected = vec![(true, false); 8];
        expected.push((false, false));
        assert_eq!(lines.edges, expected);
        assert_eq!(lines.polls, 8);
        assert_eq!(lines.level, 0);
        assert_eq!(lines.time_us, 50 + 9 * period as u64);
        assert_eq!(yields, if period > 100 { 4 } else { 0 });
    }
}

#[test]
fn reset_stops_when_aborted() {
    let mut reset = ResetTap::new(1);
    let mut lines = Lines::new();
    let mut reply = false;
    let succeeded = loop {
        match reset.step(reply) {
            PinStep::Do(op) => {
                reply = op == PinOp::PollAbort && lines.edges.len() == 3;
                lines.perform(op);
            }
            PinStep::Done { succeeded } => break succeeded,
        }
    };
    assert!(!succeeded);
    assert_eq!(lines.edges.len(), 3);
    assert_eq!(reset.step(false), PinStep::Done { succeeded: false });
}

fn bit(bytes: &[u8], index: usize) -> bool {
    (bytes[index / 8] >> (index % 8)) & 1 == 1
}

#[test]
fn shift_drives_and_samples_every_bit() {
    let tms = [0b1010_0110, 0b0000_0101];
    let tdi = [0b0110_1001, 0b1111_1010];
    let answer = [0b1100_0101, 0b0000_0110];
    let mut tdo = [0xff; 2];
    let mut shift = ShiftBits::new(3, &tms, &tdi, 11);
    let mut lines = Lines::new();
    let mut samples = 0;
    let mut reply = false;
    loop {
        match shift.step(&mut tdo, reply) {
            PinStep::Do(op) => {
                reply = false;
                if op == PinOp::SampleTdo {
                    assert!(lines.level & TCK_MASK != 0);
                    assert_eq!(lines.edges.len(), samples + 1);
                    reply = bit(&answer, samples);
                    samples += 1;
                }
                lines.perform(op);
            }
            PinStep::Done { succeeded } => {
                assert!(succeeded);
                break;
            }
        }
    }
    assert_eq!(samples, 11);
    let expected: Vec<(bool, bool)> = (0..11).map(|i| (bit(&tms, i), bit(&tdi, i))).collect();
    assert_eq!(lines.edges, expected);
    assert_eq!(tdo, answer);
    assert_eq!(lines.level & TCK_MASK, 0);
    assert_eq!(lines.time_us, 11 * 3);
}

#[test]
fn empty_shift_is_over_at_once() {
    let mut tdo: [u8; 0] = [];
    let mut shift = ShiftBits::new(1, &[], &[], 0);
    assert_eq!(shift.step(&mut tdo, false), PinStep::Done { succeeded: true });
}

#[test]
fn polls_and_pauses_follow_the_clock() {
    let bytes = vec![0u8; 1_250];
    let mut tdo = vec![0u8; 1_250];
    let mut shift = ShiftBits::new(96, &bytes, &bytes, 10_000);
    let mut polls = 0;
    let mut yields = 0;
    let mut sleeps = 0;
    loop {
        match shift.step(&mut tdo, false) {
            PinStep::Do(PinOp::PollAbort) => polls += 1,
            PinStep::Do(PinOp::Yield) => yields += 1,
            PinStep::Do(PinOp::Sleep { ms }) => {
                assert_eq!(ms, 1);
                sleeps += 1;
            }
            PinStep::Do(_) => {}
            PinStep::Done { succeeded } => {
                assert!(succeeded);
                break;
            }
        }
    }
    assert_eq!(polls, 1_000);
    assert_eq!(yields + sleeps, 20);
    assert_eq!(sleeps, 2);
}

#[test]
fn aborted_shift_leaves_the_rest_of_tdo() {
    let bytes = [0u8; 4];
    let mut tdo = [0xaa; 4];
    let mut shift = ShiftBits::new(1_000, &bytes, &bytes, 32);
    let mut samples = 0;
    let mut reply = false;
    let succeeded = loop {
        match shift.step(&mut tdo, reply) {
            PinStep::Do(op) => {
                samples += (op == PinOp::SampleTdo) as u32;
                reply = match op {
                    PinOp::PollAbort => samples == 12,
                    PinOp::SampleTdo => true,
                    _ => false,
                };
            }
            PinStep::Done { succeeded } => break succeeded,
        }
    };
    assert!(!succeeded);
    assert_eq!(tdo, [0xff, 0xaa, 0xaa, 0xaa]);
}
