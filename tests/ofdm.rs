use wavesim::ofdm::{OFDMEmit, OFDMEmitter, OFDMReceiver, CARRIER_GROUP_SIZE, SYMBOL_DURATION};

fn byte_bits(bytes: &[u8]) -> Vec<bool> {
    bytes.iter().flat_map(|b| (0..8).map(move |i| (b >> (7 - i)) & 1 == 1)).collect()
}

#[test]
fn emitter_latches_bits_round_robin() {
    let mut e = OFDMEmitter::new(&[0xBE, 0x01]);
    let bits = byte_bits(&[0xBE, 0x01]);
    for sym in 0..2 {
        assert_eq!(e.step(), Some(0));
        for k in 0..CARRIER_GROUP_SIZE {
            assert_eq!(e.is_phased(k), bits[8 * sym + k]);
        }
        for c in 1..SYMBOL_DURATION {
            assert_eq!(e.step(), Some(c));
        }
    }
    assert_eq!(e.step(), None);
}

#[test]
fn emitter_silent_after_payload() {
    let payload = [0xDE, 0xAD, 0xBE, 0xEF];
    let mut e = OFDMEmitter::new(&payload);
    let symbols = (8 * payload.len() + CARRIER_GROUP_SIZE - 1) / CARRIER_GROUP_SIZE;
    for t in 0..symbols * SYMBOL_DURATION {
        assert_eq!(e.step(), Some(t % SYMBOL_DURATION));
    }
    for _ in 0..3 * SYMBOL_DURATION {
        assert_eq!(e.step(), None);
    }
}

#[test]
fn empty_payload_is_silent() {
    let mut e = OFDMEmitter::new(&[]);
    assert_eq!(e.step(), None);
    assert_eq!(e.step(), None);
}

#[test]
fn receiver_waits_for_first_nonzero_sample() {
    let mut r = OFDMReceiver::new();
    assert_eq!(r.accept(false), None);
    assert_eq!(r.accept(false), None);
    assert_eq!(r.accept(true), Some(0));
    assert_eq!(r.accept(false), Some(1));
    assert!(!r.symbol_complete());
}

#[test]
fn receiver_decides_a_symbol_by_sign() {
    let mut r = OFDMReceiver::new();
    for i in 0..SYMBOL_DURATION {
        assert_eq!(r.accept(true), Some(i));
    }
    assert!(r.symbol_complete());
    let positive = [true, false, true, true, false, false, true, false];
    r.decide_symbol(&positive);
    assert!(!r.symbol_complete());
    let got: Vec<bool> = r.data_buffer.iter().collect();
    assert_eq!(got, vec![false, true, false, false, true, true, false, true]);
    assert_eq!(r.accept(false), Some(0));
}

#[test]
fn emit_phase_steps_every_emitter() {
    let mut emitters = vec![OFDMEmitter::new(&[0xFF]), OFDMEmitter::new(&[]), OFDMEmitter::new(&[0x00])];
    assert_eq!(OFDMEmit.run(&mut emitters), vec![Some(0), None, Some(0)]);
    assert!(emitters[0].is_phased(3));
    assert!(!emitters[2].is_phased(3));
    assert_eq!(OFDMEmit.run(&mut emitters), vec![Some(1), None, Some(1)]);
}
