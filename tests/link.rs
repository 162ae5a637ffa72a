use rustfft::num_complex::Complex;
use rustfft::FFTplanner;
use wavesim::ofdm::{OFDMEmitter, OFDMReceiver, CARRIER_GROUP_SIZE, SYMBOL_DURATION};
use wavesim::propagation::PropagationSystem;
use wavesim::ring_buffer::RingBuffer;
use wavesim::simulation::plan_receiver;

const WAVE_VELOCITY: f32 = 299_792_458.;
const TIME_PER_BEAT: f32 = 1. / 60_000_000_000.;

fn wavetables() -> Vec<Vec<f32>> {
    let df = 1.0 / SYMBOL_DURATION as f32;
    (0..CARRIER_GROUP_SIZE)
        .map(|k| {
            (0..SYMBOL_DURATION)
                .map(|i| (2.0 * std::f32::consts::PI * df * ((k + 1) as f32) * (i as f32)).sin())
                .collect()
        })
        .collect()
}

fn payload_bits(bytes: &[u8]) -> Vec<bool> {
    bytes.iter().flat_map(|b| (0..8).map(move |i| (b >> (7 - i)) & 1 == 1)).collect()
}

/// Runs an OFDM emitter into an OFDM receiver over a single line-of-sight
/// event and returns the decoded bits.
fn run_link(payload: &[u8], distance: f32, gain: f32, ticks: usize) -> Vec<bool> {
    let tau = (distance / (WAVE_VELOCITY * TIME_PER_BEAT)).floor() as usize;
    let plan = plan_receiver(&vec![true], &vec![vec![tau]]).ok().unwrap();
    let mut buf: RingBuffer<f32> = RingBuffer::with_capacity(plan.capacity);

    let w = wavetables();
    let mut emitter = OFDMEmitter::new(payload);
    let mut receiver = OFDMReceiver::new();
    let fft = FFTplanner::new(false).plan_fft(SYMBOL_DURATION);
    let mut symbol = vec![Complex::new(0.0f32, 0.0); SYMBOL_DURATION];
    let mut spectrum = vec![Complex::new(0.0f32, 0.0); SYMBOL_DURATION];

    for _ in 0..ticks {
        let sample = match emitter.step() {
            None => 0.0,
            Some(c) => (0..CARRIER_GROUP_SIZE)
                .map(|k| if emitter.is_phased(k) { w[k][c] } else { -w[k][c] })
                .sum(),
        };
        PropagationSystem.fan_out(&mut buf, &vec![tau], &|acc: f32, _j: usize| acc + sample * gain);
        let current = buf.pop();
        if let Some(slot) = receiver.accept(current != 0.0) {
            symbol[slot] = Complex::new(current, 0.0);
            if receiver.symbol_complete() {
                fft.process(&mut symbol, &mut spectrum);
                let mut positive = [false; CARRIER_GROUP_SIZE];
                for k in 0..CARRIER_GROUP_SIZE {
                    positive[k] = spectrum[k + 1].re > 0.0;
                }
                receiver.decide_symbol(&positive);
            }
        }
    }
    receiver.data_buffer.iter().collect()
}

#[test]
fn ofdm_link_round_trip() {
    // Emitter at (-5, 0, 0), receiver at (5, 0, 0), no obstacles, 20 000 ticks.
    let payload = [0xDE, 0xAD, 0xBE, 0xEF];
    let decoded = run_link(&payload, 10.0, 1.0, 20_000);
    let sent = payload_bits(&payload);
    assert!(decoded.len() >= sent.len());
    // A set bit drives its carrier with +W, whose bin has a positive real
    // part, and a positive real part decodes to 0: each bit arrives inverted.
    let expected: Vec<bool> = sent.iter().map(|b| !b).collect();
    assert_eq!(&decoded[..sent.len()], &expected[..]);
}

#[test]
fn ofdm_link_other_payload() {
    let payload = [0xBE, 0xEF, 0xCA, 0xFE];
    let decoded = run_link(&payload, 10.0, 10.0, 0x20000);
    let sent = payload_bits(&payload);
    let expected: Vec<bool> = sent.iter().map(|b| !b).collect();
    assert_eq!(&decoded[..sent.len()], &expected[..]);
}
