use vstd::prelude::*;

verus! {

/// Control port of the 8254 programmable interval timer.
pub const PIT_CONTROL: u16 = 0x43;

/// Counter port for channel 0, which drives the periodic timer interrupt.
pub const PIT_COUNTER_OUT0: u16 = 0x40;

/// Counter port for channel 2, which drives the PC speaker.
pub const PIT_COUNTER_OUT2: u16 = 0x42;

/// Minimum frequency: below it the quotient would overflow the 16-bit
/// counter.
pub const PIT_MIN_FREQUENCY: usize = 19;

/// Maximum frequency: above it the quotient would underflow to zero, which
/// the device reads as 65536.
pub const PIT_MAX_FREQUENCY: usize = 1193180;

/// The two output channels the kernel uses: channel 0 is wired to the
/// interrupt controller for the periodic tick, channel 2 to the PC speaker.
#[derive(Debug, Clone, Copy, PartialEq, Eq, Structural)]
pub enum Channel {
    OUT0,
    OUT2,
}

/// The form of a channel's output: a rate generator emits a periodic pulse
/// for the interrupt line, a square wave drives a tone on the speaker.
#[derive(Debug, Clone, Copy, PartialEq, Eq, Structural)]
pub enum Mode {
    RateGenerator,
    SquareWave,
}

/// The channel-select bits of the control word.
pub open spec fn spec_channel_bits(c: Channel) -> u8 {
    match c {
        Channel::OUT0 => 0,
        Channel::OUT2 => 2,
    }
}

/// The mode bits of the control word.
pub open spec fn spec_mode_bits(m: Mode) -> u8 {
    match m {
        Mode::RateGenerator => 2,
        Mode::SquareWave => 3,
    }
}

/// The counter the device is loaded with for `frequency` interrupts per
/// second: zero (read as 65536) below the minimum, two above the maximum —
/// one is illegal in rate-generator mode — and the rounded quotient of the
/// input clock otherwise.
pub open spec fn spec_pit_count(frequency: int) -> int {
    if frequency < PIT_MIN_FREQUENCY {
        0
    } else if frequency > PIT_MAX_FREQUENCY {
        2
    } else {
        (PIT_MAX_FREQUENCY + frequency / 2) / frequency
    }
}

/// Interface to the 8254 programmable interval timer. The device sits behind
/// I/O ports; each operation returns the `(port, byte)` writes it performs,
/// in order.
pub struct Pit {}

impl Pit {
    /// Creates a new interface for the timer.
    pub fn new() -> (r: Pit) {
        Pit {  }
    }

    /// Computes the writes that configure `channel` to run in `mode` at
    /// `frequency` interrupts per second: the control word, then the
    /// counter's low and high bytes.
    pub fn configure(&self, channel: Channel, mode: Mode, frequency: usize) -> (writes: Vec<
        (u16, u8),
    >)
        ensures
            writes@ =~= spec_pit_configure_writes(channel, mode, frequency as int),
    {
        let count: u16 = if frequency < PIT_MIN_FREQUENCY {
            // The device reads zero as 65536, the largest count: roughly an
            // 18.2 Hz timer.
            0
        } else if frequency > PIT_MAX_FREQUENCY {
            // A count of one is illegal in rate-generator mode; two gives
            // roughly a 596 kHz timer.
            2
        } else {
            proof {
                assert(((PIT_MAX_FREQUENCY + frequency / 2) as int) / (frequency as int)
                    <= u16::MAX) by (nonlinear_arith)
                    requires
                        PIT_MIN_FREQUENCY <= frequency <= PIT_MAX_FREQUENCY,
                ;
            }
            ((PIT_MAX_FREQUENCY + frequency / 2) / frequency) as u16
        };
        let channel_bits: u8 = match channel {
            Channel::OUT0 => 0,
            Channel::OUT2 => 2,
        };
        let mode_bits: u8 = match mode {
            Mode::RateGenerator => 2,
            Mode::SquareWave => 3,
        };
        let control = (channel_bits << 6u8) | 0x30 | (mode_bits << 1u8);
        let counter_port = match channel {
            Channel::OUT0 => PIT_COUNTER_OUT0,
            Channel::OUT2 => PIT_COUNTER_OUT2,
        };
        let mut writes: Vec<(u16, u8)> = Vec::new();
        writes.push((PIT_CONTROL, control));
        proof {
            let cb = channel_bits;
            let mb = mode_bits;
            assert(cb <= 2 && mb <= 3 ==> ((cb << 6u8) | 0x30 | (mb << 1u8)) == (cb as int) * 64
                + 0x30 + (mb as int) * 2) by (bit_vector);
            assert(count as int % 256 == (count & 0xff) as int && count as int / 256 == (count
                >> 8u16) as int) by (bit_vector);
        }
        writes.push((counter_port, (count & 0xff) as u8));
        writes.push((counter_port, (count >> 8u16) as u8));
        writes
    }
}

/// The writes that configure a channel: the control word selecting the
/// channel, both counter bytes and the mode, then the counter's low and high
/// bytes on the channel's port.
pub open spec fn spec_pit_configure_writes(channel: Channel, mode: Mode, frequency: int) -> Seq<
    (u16, u8),
> {
    let count = spec_pit_count(frequency);
    let port = match channel {
        Channel::OUT0 => PIT_COUNTER_OUT0,
        Channel::OUT2 => PIT_COUNTER_OUT2,
    };
    seq![
        (
            PIT_CONTROL,
            (spec_channel_bits(channel) * 64 + 0x30 + spec_mode_bits(mode) * 2) as u8,
        ),
        (port, (count % 256) as u8),
        (port, (count / 256) as u8),
    ]
}

} // verus!
