use vstd::prelude::*;
use vstd::string::StringSliceAdditionalSpecFns;
use vstd::string::StrSliceExecFns;

verus! {

/// The decimal digits of `n`, most significant first.
pub open spec fn spec_decimal(n: nat) -> Seq<u8>
    decreases n,
{
    if n < 10 {
        seq![(0x30 + n) as u8]
    } else {
        spec_decimal(n / 10).push((0x30 + n % 10) as u8)
    }
}

/// Returns the decimal digits of `n` as ASCII bytes, most significant first.
pub fn format_usize(n: usize) -> (r: Vec<u8>)
    ensures
        r@ =~= spec_decimal(n as nat),
    decreases n,
{
    if n < 10 {
        let mut r: Vec<u8> = Vec::new();
        r.push(0x30 + (n as u8));
        r
    } else {
        let mut r = format_usize(n / 10);
        r.push(0x30 + ((n % 10) as u8));
        r
    }
}

/// The stats line the console prints about itself, as bytes.
pub open spec fn spec_stats_line(count: nat) -> Seq<u8> {
    "Console: ".spec_bytes() + spec_decimal(count) + " characters output\n".spec_bytes()
}

/// Console writer for the kernel.
///
/// The kernel's console pushes bytes to the serial port and counts them; the
/// port itself is reached over I/O registers. Here the console carries its
/// character count and the port's one observable state, whether it has been
/// set up for polled output; what it would transmit is returned to the
/// caller, which owns the wire.
pub struct Console {
    /// Whether the serial port has been initialized for polled output.
    initialized: bool,
    /// Number of characters written to the console.
    write_cnt: usize,
}

impl Console {
    /// Whether the serial port has been initialized for polled output.
    pub closed spec fn spec_initialized(self) -> bool {
        self.initialized
    }

    /// Number of characters written so far.
    pub closed spec fn spec_write_cnt(self) -> nat {
        self.write_cnt as nat
    }

    /// Creates a new console writer; the serial port is not yet initialized.
    pub fn new() -> (r: Console)
        ensures
            !r.spec_initialized(),
            r.spec_write_cnt() == 0,
    {
        Console { initialized: false, write_cnt: 0 }
    }

    /// Initializes the console: puts the serial port into polling mode, so
    /// output works before interrupts are enabled.
    pub fn init(&mut self)
        ensures
            final(self).spec_initialized(),
            final(self).spec_write_cnt() == old(self).spec_write_cnt(),
    {
        self.initialized = true;
    }

    /// Writes `s` to the console: counts its bytes and hands them back for
    /// the serial port. A write to an uninitialized console initializes it
    /// first, as the serial driver does.
    pub fn write_str(&mut self, s: &str) -> (out: Vec<u8>)
        requires
            old(self).spec_write_cnt() + s.spec_bytes().len() <= usize::MAX,
        ensures
            final(self).spec_initialized(),
            final(self).spec_write_cnt() == old(self).spec_write_cnt() + s.spec_bytes().len(),
            out@ == s.spec_bytes(),
    {
        if !self.initialized {
            self.initialized = true;
        }
        let bytes = s.as_bytes_vec();
        self.write_cnt = self.write_cnt + bytes.len();
        bytes
    }

    /// Prints console statistics: writes its own line, counting it like any
    /// other output, and hands the bytes back for the serial port.
    pub fn print_stats(&mut self) -> (line: Vec<u8>)
        requires
            old(self).spec_write_cnt() + spec_stats_line(old(self).spec_write_cnt()).len()
                <= usize::MAX,
        ensures
            final(self).spec_initialized(),
            line@ =~= spec_stats_line(old(self).spec_write_cnt()),
            final(self).spec_write_cnt() == old(self).spec_write_cnt() + line@.len(),
    {
        let mut line = "Console: ".as_bytes_vec();
        let mut digits = format_usize(self.write_cnt);
        line.append(&mut digits);
        let mut tail = " characters output\n".as_bytes_vec();
        line.append(&mut tail);
        if !self.initialized {
            self.initialized = true;
        }
        proof {
            reveal_strlit("Console: ");
            reveal_strlit(" characters output\n");
        }
        self.write_cnt = self.write_cnt + line.len();
        line
    }
}

} // verus!
