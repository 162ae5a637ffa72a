use vstd::prelude::*;
use bit_vec::BitVec;
use crate::bits::{bit_at, bit_len, bits_from_bytes, bits_of, bits_of_bytes, empty_bits, push_bit};

verus! {

/// Number of parallel subcarriers.
pub const CARRIER_GROUP_SIZE: usize = 8;

/// Ticks per OFDM symbol.
pub const SYMBOL_DURATION: usize = 2048;

/// `bits` followed by as many `false` bits as make its length a multiple of
/// the carrier group size.
pub open spec fn padded(bits: Seq<bool>) -> Seq<bool> {
    let extra = (8 - bits.len() % 8) % 8;
    bits + Seq::new(extra as nat, |_i: int| false)
}

/// The bits that subcarrier `k` transmits for a payload: the padded payload
/// bits dealt round-robin over the carriers, carrier `k` taking every bit
/// whose position is `k` modulo the group size.
pub open spec fn carrier_bits(payload: Seq<u8>, k: int) -> Seq<bool> {
    let p = padded(bits_of_bytes(payload));
    Seq::new(p.len() / 8, |j: int| p[8 * j + k])
}

/// Reading the carriers back symbol by symbol, carrier `0` first (the order
/// in which `OFDMReceiver::decide_symbol` appends a symbol's bits), gives the
/// padded payload bits: dealing the bits over the carriers loses nothing and
/// reorders nothing.
pub proof fn lemma_dealing_round_trip(payload: Seq<u8>)
    ensures
        Seq::new(8 * carrier_bits(payload, 0).len(), |i: int| carrier_bits(payload, i % 8)[i / 8])
            == padded(bits_of_bytes(payload)),
{
    let p = padded(bits_of_bytes(payload));
    let n = carrier_bits(payload, 0).len();
    assert(p.len() % 8 == 0);
    assert(8 * n == p.len());
    let dealt = Seq::new(8 * n, |i: int| carrier_bits(payload, i % 8)[i / 8]);
    assert forall|i: int| 0 <= i < p.len() implies #[trigger] dealt[i] == p[i] by {
        assert(8 * (i / 8) + i % 8 == i);
        assert(carrier_bits(payload, i % 8).len() == n);
    };
    assert(dealt =~= p);
}

/// One emitter tick on the counters alone: `None` when the emitter is silent
/// (at a symbol boundary with every symbol sent), otherwise the next symbol
/// position and clock.
pub open spec fn emit_step(symbols: nat, pos: nat, clock: nat) -> Option<(nat, nat)> {
    if clock == 0 && pos >= symbols {
        None
    } else {
        Some((if clock == 0 { pos + 1 } else { pos }, ((clock + 1) % 2048) as nat))
    }
}

/// The counters after `k` ticks of a fresh emitter of `symbols` symbols, or
/// `None` when one of those ticks was silent.
pub open spec fn emit_run(symbols: nat, k: nat) -> Option<(nat, nat)>
    decreases k,
{
    if k == 0 {
        Some((0, 0))
    } else {
        match emit_run(symbols, (k - 1) as nat) {
            Some((p, c)) => emit_step(symbols, p, c),
            None => None,
        }
    }
}

proof fn lemma_emit_run(symbols: nat, k: nat)
    requires
        k <= symbols * 2048,
    ensures
        emit_run(symbols, k) == Some((((k + 2047) / 2048) as nat, (k % 2048) as nat)),
    decreases k,
{
    if k > 0 {
        lemma_emit_run(symbols, (k - 1) as nat);
    }
}

/// An OFDM emitter fed a payload emits on every one of the first
/// `symbols * SYMBOL_DURATION` ticks, where `symbols` is the length of each
/// carrier's bit sequence, and from then on it is silent on every tick.
pub proof fn lemma_silent_after_payload(payload: Seq<u8>)
    ensures
        forall|k: nat| 1 <= k <= carrier_bits(payload, 0).len() * 2048 ==> #[trigger] emit_run(carrier_bits(payload, 0).len(), k) is Some,
        emit_run(carrier_bits(payload, 0).len(), carrier_bits(payload, 0).len() * 2048)
            == Some((carrier_bits(payload, 0).len(), 0nat)),
        emit_step(carrier_bits(payload, 0).len(), carrier_bits(payload, 0).len(), 0) is None,
{
    let n = carrier_bits(payload, 0).len();
    assert forall|k: nat| 1 <= k <= n * 2048 implies #[trigger] emit_run(n, k) is Some by {
        lemma_emit_run(n, k);
    };
    lemma_emit_run(n, n * 2048);
}

/// Transmitter state: the payload split over the subcarriers, the index of
/// the next symbol, the tick within the current symbol and the phase of each
/// subcarrier for the current symbol.
pub struct OFDMEmitter {
    data_buffer: Vec<BitVec>,
    buffer_pos: usize,
    clock: u32,
    is_current_phased: [bool; CARRIER_GROUP_SIZE],
}

impl OFDMEmitter {
    /// Bits that carrier `k` has to send.
    pub closed spec fn carrier(&self, k: int) -> Seq<bool> {
        bits_of(self.data_buffer@[k])
    }

    /// Symbols in the payload.
    pub closed spec fn symbols(&self) -> nat {
        self.carrier(0).len()
    }

    /// Index of the next symbol to latch.
    pub closed spec fn position(&self) -> nat {
        self.buffer_pos as nat
    }

    /// Tick within the current symbol.
    pub closed spec fn clock(&self) -> nat {
        self.clock as nat
    }

    /// Phase of each carrier in the current symbol (`true`: positive).
    pub closed spec fn phases(&self) -> Seq<bool> {
        self.is_current_phased@
    }

    pub closed spec fn wf(&self) -> bool {
        &&& self.data_buffer@.len() == CARRIER_GROUP_SIZE
        &&& forall|k: int| 0 <= k < 8 ==> #[trigger] self.carrier(k).len() == self.symbols()
        &&& self.buffer_pos <= self.symbols()
        &&& self.clock < SYMBOL_DURATION
    }

    /// Splits `signal` over the subcarriers: its bits, most significant
    /// first and padded with zeros to a multiple of the group size, are dealt
    /// round-robin.
    pub fn new(signal: &[u8]) -> (r: OFDMEmitter)
        requires
            8 * signal@.len() <= usize::MAX,
        ensures
            r.wf(),
            forall|k: int| 0 <= k < 8 ==> #[trigger] r.carrier(k) == carrier_bits(signal@, k),
            r.position() == 0,
            r.clock() == 0,
            r.phases() == Seq::new(8, |_k: int| false),
    {
        let mut global_vec = bits_from_bytes(signal);
        let ghost bits = bits_of_bytes(signal@);
        while bit_len(&global_vec) % CARRIER_GROUP_SIZE != 0
            invariant
                bits.len() <= bits_of(global_vec).len() <= bits.len() + 8,
                bits.len() % 8 == 0,
                bits.len() <= usize::MAX,
                bits_of(global_vec) == padded(bits),
            decreases 8 - bits_of(global_vec).len() % 8,
        {
            push_bit(&mut global_vec, false);
        }
        let ghost all = bits_of(global_vec);
        assert(all =~= padded(bits));

        let mut data_buffer: Vec<BitVec> = Vec::new();
        let mut k: usize = 0;
        while k < CARRIER_GROUP_SIZE
            invariant
                k <= 8,
                data_buffer@.len() == k,
                forall|c: int| 0 <= c < k ==> bits_of(#[trigger] data_buffer@[c]) == Seq::<bool>::empty(),
            decreases 8 - k,
        {
            data_buffer.push(empty_bits());
            k = k + 1;
        }

        let total = bit_len(&global_vec);
        let mut pos: usize = 0;
        while pos < total
            invariant
                total == all.len(),
                all == bits_of(global_vec),
                total % 8 == 0,
                pos % 8 == 0,
                pos <= total,
                data_buffer@.len() == 8,
                forall|c: int| 0 <= c < 8 ==> #[trigger] bits_of(data_buffer@[c])
                    == Seq::new((pos / 8) as nat, |j: int| all[8 * j + c]),
            decreases total - pos,
        {
            let mut c: usize = 0;
            assert(pos + 8 <= total);
            while c < CARRIER_GROUP_SIZE
                invariant
                    total == all.len(),
                    all == bits_of(global_vec),
                    pos + 8 <= total,
                    total % 8 == 0,
                    pos % 8 == 0,
                    pos < total,
                    c <= 8,
                    data_buffer@.len() == 8,
                    forall|d: int| 0 <= d < c ==> #[trigger] bits_of(data_buffer@[d])
                        == Seq::new((pos / 8 + 1) as nat, |j: int| all[8 * j + d]),
                    forall|d: int| c <= d < 8 ==> #[trigger] bits_of(data_buffer@[d])
                        == Seq::new((pos / 8) as nat, |j: int| all[8 * j + d]),
                decreases 8 - c,
            {
                let b = bit_at(&global_vec, pos + c);
                assert(8 * (pos / 8) + c == pos + c);
                push_bit(&mut data_buffer[c], b);
                assert(bits_of(data_buffer@[c as int]) =~= Seq::new((pos / 8 + 1) as nat, |j: int| all[8 * j + c]));
                c = c + 1;
            }
            pos = pos + CARRIER_GROUP_SIZE;
        }

        let r = OFDMEmitter {
            data_buffer,
            buffer_pos: 0,
            clock: 0,
            is_current_phased: [false; CARRIER_GROUP_SIZE],
        };
        assert forall|k: int| 0 <= k < 8 implies #[trigger] r.carrier(k) == carrier_bits(signal@, k) by {
            assert(r.carrier(k) =~= carrier_bits(signal@, k));
        };
        assert(r.phases() =~= Seq::new(8, |_k: int| false));
        r
    }

    /// One tick of the transmitter. At a symbol boundary with every symbol
    /// sent it returns `None` (the emitter is silent) and changes nothing.
    /// Otherwise it returns the tick within the symbol, `c`; the sample to
    /// emit is the sum over the carriers of `+W[k][c]` for a positive phase
    /// and `-W[k][c]` for a negative one. At a symbol boundary the phases are
    /// first latched from the next bit of each carrier; the clock then moves
    /// on modulo `SYMBOL_DURATION`.
    pub fn step(&mut self) -> (r: Option<usize>)
        requires
            old(self).wf(),
        ensures
            stepped(*old(self), *final(self), r),
    {
        if self.clock == 0 {
            if self.buffer_pos == bit_len(&self.data_buffer[0]) {
                return None;
            }
            let mut phases = self.is_current_phased;
            let mut i: usize = 0;
            while i < CARRIER_GROUP_SIZE
                invariant
                    i <= 8,
                    self.wf(),
                    self.data_buffer == old(self).data_buffer,
                    self.buffer_pos == old(self).buffer_pos,
                    self.buffer_pos < self.symbols(),
                    forall|k: int| 0 <= k < i ==> #[trigger] phases@[k]
                        == self.carrier(k)[self.buffer_pos as int],
                decreases 8 - i,
            {
                assert(self.carrier(i as int).len() == self.symbols());
                let b = bit_at(&self.data_buffer[i], self.buffer_pos);
                phases[i] = b;
                i = i + 1;
            }
            self.is_current_phased = phases;
            self.buffer_pos = self.buffer_pos + 1;
            assert(self.phases() =~= Seq::new(8, |k: int| old(self).carrier(k)[old(self).position() as int]));
        }
        let c = self.clock;
        self.clock = if self.clock + 1 == SYMBOL_DURATION as u32 { 0 } else { self.clock + 1 };
        assert forall|k: int| 0 <= k < 8 implies #[trigger] self.carrier(k).len() == self.symbols() by {
            assert(old(self).carrier(k).len() == old(self).symbols());
        };
        Some(c as usize)
    }

    /// Phase of carrier `k` in the current symbol (`true`: positive).
    pub fn is_phased(&self, k: usize) -> (r: bool)
        requires
            k < CARRIER_GROUP_SIZE,
        ensures
            r == self.phases()[k as int],
    {
        self.is_current_phased[k]
    }
}

/// The modulation phase of a tick for every OFDM emitter.
pub struct OFDMEmit;

impl OFDMEmit {
    /// Steps each emitter once, in order. `r[i]` is what `step` returned for
    /// emitter `i`: `None` for a silent emitter, else the tick within its
    /// symbol at which to read its wavetables.
    pub fn run(&self, emitters: &mut Vec<OFDMEmitter>) -> (r: Vec<Option<usize>>)
        requires
            forall|i: int| 0 <= i < old(emitters)@.len() ==> (#[trigger] old(emitters)@[i]).wf(),
        ensures
            r@.len() == old(emitters)@.len(),
            final(emitters)@.len() == old(emitters)@.len(),
            forall|i: int| 0 <= i < r@.len() ==> #[trigger] stepped(old(emitters)@[i], final(emitters)@[i], r@[i]),
    {
        let mut out: Vec<Option<usize>> = Vec::new();
        let mut i: usize = 0;
        while i < emitters.len()
            invariant
                i <= emitters@.len(),
                emitters@.len() == old(emitters)@.len(),
                out@.len() == i,
                forall|j: int| 0 <= j < i ==> #[trigger] stepped(old(emitters)@[j], emitters@[j], out@[j]),
                forall|j: int| i <= j < emitters@.len() ==> #[trigger] emitters@[j] == old(emitters)@[j],
                forall|j: int| 0 <= j < old(emitters)@.len() ==> (#[trigger] old(emitters)@[j]).wf(),
            decreases emitters@.len() - i,
        {
            assert(emitters@[i as int] == old(emitters)@[i as int]);
            let c = emitters[i].step();
            out.push(c);
            i = i + 1;
        }
        out
    }
}

/// `after` is `before` stepped once, and `r` what that step returned, as
/// `OFDMEmitter::step` states.
pub open spec fn stepped(before: OFDMEmitter, after: OFDMEmitter, r: Option<usize>) -> bool {
    &&& after.wf()
    &&& forall|k: int| 0 <= k < 8 ==> #[trigger] after.carrier(k) == before.carrier(k)
    &&& match emit_step(before.symbols(), before.position(), before.clock()) {
        None => r is None && after == before,
        Some((p, c)) => {
            &&& r == Some(before.clock() as usize)
            &&& after.position() == p
            &&& after.clock() == c
            &&& before.clock() == 0 ==> after.phases()
                == Seq::new(8, |k: int| before.carrier(k)[before.position() as int])
            &&& before.clock() != 0 ==> after.phases() == before.phases()
        },
    }
}

/// Receiver state: the bits decoded so far, the tick within the symbol being
/// received and whether reception has started. The samples of a symbol and
/// the Fourier transform that demodulates them are kept by the caller: this
/// state says where each sample goes and turns the transform's signs into
/// bits.
pub struct OFDMReceiver {
    pub data_buffer: BitVec,
    clock: u32,
    began: bool,
}

impl OFDMReceiver {
    /// Bits decoded so far.
    pub closed spec fn decoded(&self) -> Seq<bool> {
        bits_of(self.data_buffer)
    }

    /// Samples of the current symbol received so far.
    pub closed spec fn clock(&self) -> nat {
        self.clock as nat
    }

    /// Whether a non-zero sample has arrived yet.
    pub closed spec fn started(&self) -> bool {
        self.began
    }

    pub closed spec fn wf(&self) -> bool {
        self.clock <= SYMBOL_DURATION
    }

    /// A receiver that has decoded nothing and waits for its first non-zero
    /// sample.
    pub fn new() -> (r: OFDMReceiver)
        ensures
            r.wf(),
            r.decoded() == Seq::<bool>::empty(),
            r.clock() == 0,
            !r.started(),
    {
        OFDMReceiver { data_buffer: empty_bits(), clock: 0, began: false }
    }

    /// Whether a whole symbol has been received and awaits its decision.
    pub fn symbol_complete(&self) -> (r: bool)
        ensures
            r == (self.clock() == SYMBOL_DURATION),
    {
        self.clock == SYMBOL_DURATION as u32
    }

    /// Takes the tick's sample, of which only whether it is non-zero matters
    /// here. Before the first non-zero sample nothing is received: the result
    /// is `None` and the state is unchanged. Otherwise reception has started
    /// and the result is the slot of the symbol buffer that the sample goes
    /// to; the symbol is complete once the last slot is filled.
    pub fn accept(&mut self, nonzero: bool) -> (r: Option<usize>)
        requires
            old(self).wf(),
            old(self).clock() < SYMBOL_DURATION,
        ensures
            final(self).wf(),
            final(self).decoded() == old(self).decoded(),
            !old(self).started() && !nonzero ==> r is None && *final(self) == *old(self),
            old(self).started() || nonzero ==> {
                &&& r == Some(old(self).clock() as usize)
                &&& final(self).started()
                &&& final(self).clock() == old(self).clock() + 1
            },
    {
        if !self.began {
            if nonzero {
                self.began = true;
            } else {
                return None;
            }
        }
        let slot = self.clock;
        self.clock = self.clock + 1;
        Some(slot as usize)
    }

    /// Decides a complete symbol from the signs of its transform:
    /// `positive[k]` tells whether the real part of the bin of carrier `k`
    /// is positive. Carrier `k` then decodes to `false` when it is and to
    /// `true` otherwise; the eight bits are appended in carrier order and the
    /// next symbol starts.
    pub fn decide_symbol(&mut self, positive: &[bool; CARRIER_GROUP_SIZE])
        requires
            old(self).wf(),
            old(self).clock() == SYMBOL_DURATION,
            old(self).decoded().len() + 8 <= usize::MAX,
        ensures
            final(self).wf(),
            final(self).clock() == 0,
            final(self).started() == old(self).started(),
            final(self).decoded() == old(self).decoded() + Seq::new(8, |k: int| !positive@[k]),
    {
        let mut k: usize = 0;
        while k < CARRIER_GROUP_SIZE
            invariant
                k <= 8,
                self.clock == old(self).clock,
                self.began == old(self).began,
                self.decoded() == old(self).decoded() + Seq::new(k as nat, |j: int| !positive@[j]),
                old(self).decoded().len() + 8 <= usize::MAX,
            decreases 8 - k,
        {
            push_bit(&mut self.data_buffer, !positive[k]);
            assert(self.decoded() =~= old(self).decoded() + Seq::new((k + 1) as nat, |j: int| !positive@[j]));
            k = k + 1;
        }
        self.clock = 0;
    }
}

} // verus!
