//! The power meter's command protocol: the module and port that readings
//! come from, the checks on every setting before it is sent, the command
//! lines, and the field of a reading that belongs to the configured port.

use vstd::prelude::*;

use crate::text::{
    ascii_bytes, ascii_of, decimal, fixed_point, push_bytes, push_decimal, push_fixed, split,
    split_on, trim, trimmed, views,
};

verus! {

/// Delay after every command line, in milliseconds.
pub const COMMAND_DELAY_MS: u64 = 10;

/// Time the meter takes to zero, in milliseconds.
pub const ZERO_SETTLE_MS: u64 = 3000;

/// Read and write timeout of the connection, in seconds.
pub const IO_TIMEOUT_S: u64 = 5;

/// Calibration wavelengths accepted, in picometres.
pub const MIN_WAVELENGTH_PM: u64 = 1_250_000;

pub const MAX_WAVELENGTH_PM: u64 = 1_630_000;

/// Averaging times accepted, in hundredths of a millisecond.
pub const MIN_AVERAGING_CENTI_MS: u64 = 1;

pub const MAX_AVERAGING_CENTI_MS: u64 = 1_000_000;

/// The unit readings are given in.
#[derive(Debug, Clone, Copy, PartialEq, Eq, Structural)]
pub enum PowerUnit {
    DBm,
    MW,
}

impl PowerUnit {
    pub open spec fn code(self) -> Seq<char> {
        match self {
            PowerUnit::DBm => "0"@,
            PowerUnit::MW => "1"@,
        }
    }

    /// The unit's code in the `UNIT` command.
    pub fn to_command_value(&self) -> (r: &'static str)
        ensures
            r@ == self.code(),
    {
        match self {
            PowerUnit::DBm => "0",
            PowerUnit::MW => "1",
        }
    }
}

/// Why the meter refused a request.
#[derive(Debug, Clone, Copy, PartialEq, Eq, Structural)]
pub enum MeterError {
    /// An argument out of its range, refused before anything is sent.
    InvalidInput,
    /// An answer without the expected field.
    InvalidData,
}

/// The measurement modes the meter accepts.
pub open spec fn is_measurement_mode(m: Seq<u8>) -> bool {
    m == ascii_of("CONST1"@) || m == ascii_of("CONST2"@) || m == ascii_of("SWEEP1"@) || m
        == ascii_of("SWEEP2"@) || m == ascii_of("FREERUN"@)
}

pub open spec fn line(body: Seq<u8>) -> Seq<u8> {
    body + ascii_of("\n"@)
}

fn same_bytes(a: &[u8], b: &[u8]) -> (r: bool)
    ensures
        r == (a@ == b@),
{
    if a.len() != b.len() {
        return false;
    }
    let mut i: usize = 0;
    while i < a.len()
        invariant
            i <= a@.len(),
            a@.len() == b@.len(),
            a@.subrange(0, i as int) == b@.subrange(0, i as int),
        decreases a@.len() - i,
    {
        if a[i] != b[i] {
            assert(a@[i as int] != b@[i as int]);
            return false;
        }
        i = i + 1;
        assert(a@.subrange(0, i as int) =~= a@.subrange(0, i - 1).push(a@[i - 1]));
        assert(b@.subrange(0, i as int) =~= b@.subrange(0, i - 1).push(b@[i - 1]));
    }
    assert(a@ =~= a@.subrange(0, i as int));
    assert(b@ =~= b@.subrange(0, i as int));
    true
}

fn terminate(body: &mut Vec<u8>)
    ensures
        final(body)@ == line(old(body)@),
{
    proof {
        reveal_strlit("\n");
    }
    let nl = ascii_bytes("\n");
    push_bytes(body, nl.as_slice());
}

fn text_line(s: &str) -> (r: Vec<u8>)
    requires
        s.is_ascii(),
    ensures
        r@ == line(ascii_of(s@)),
{
    let mut r = ascii_bytes(s);
    terminate(&mut r);
    r
}

/// The state of an MPM-210H power meter that commands depend on: the
/// module and the port readings are taken from.
#[derive(Debug, Clone, Copy)]
pub struct MPM210H {
    pub module: u8,
    pub port: u8,
}

impl MPM210H {
    pub open spec fn wf(self) -> bool {
        self.module <= 4 && 1 <= self.port <= 4
    }

    /// Module 0, port 1: the state of a fresh connection.
    pub fn new() -> (r: MPM210H)
        ensures
            r.wf(),
            r.module == 0,
            r.port == 1,
    {
        MPM210H { module: 0, port: 1 }
    }

    /// The identity query, which a connection sends to check the meter.
    pub fn identity_query() -> (r: Vec<u8>)
        ensures
            r@ == line(ascii_of("*IDN?"@)),
    {
        proof {
            reveal_strlit("*IDN?");
        }
        text_line("*IDN?")
    }

    /// Selects module `module`, which must lie in `0..=4`.
    pub fn set_module(&mut self, module: u8) -> (r: Result<(), MeterError>)
        requires
            old(self).wf(),
        ensures
            final(self).wf(),
            r is Ok <==> module <= 4,
            r is Ok ==> final(self).module == module && final(self).port == old(self).port,
            r is Err ==> r == Err::<(), MeterError>(MeterError::InvalidInput) && *final(self)
                == *old(self),
    {
        if module > 4 {
            return Err(MeterError::InvalidInput);
        }
        self.module = module;
        Ok(())
    }

    /// Selects port `port`, which must lie in `1..=4`.
    pub fn set_port(&mut self, port: u8) -> (r: Result<(), MeterError>)
        requires
            old(self).wf(),
        ensures
            final(self).wf(),
            r is Ok <==> 1 <= port <= 4,
            r is Ok ==> final(self).port == port && final(self).module == old(self).module,
            r is Err ==> r == Err::<(), MeterError>(MeterError::InvalidInput) && *final(self)
                == *old(self),
    {
        if port < 1 || port > 4 {
            return Err(MeterError::InvalidInput);
        }
        self.port = port;
        Ok(())
    }

    /// The command that sets the calibration wavelength (picometres) of the
    /// selected module and port; refused outside 1250 to 1630 nm.
    pub fn set_wavelength(&self, wavelength_pm: u64) -> (r: Result<Vec<u8>, MeterError>)
        ensures
            r is Ok <==> MIN_WAVELENGTH_PM <= wavelength_pm <= MAX_WAVELENGTH_PM,
            r is Err ==> r == Err::<Vec<u8>, MeterError>(MeterError::InvalidInput),
            r matches Ok(c) ==> c@ == line(
                ascii_of("DWAV "@) + decimal(self.module as nat) + ascii_of(","@) + decimal(
                    self.port as nat,
                ) + ascii_of(","@) + fixed_point(wavelength_pm as int, 3),
            ),
    {
        if wavelength_pm < MIN_WAVELENGTH_PM || wavelength_pm > MAX_WAVELENGTH_PM {
            return Err(MeterError::InvalidInput);
        }
        proof {
            reveal_strlit("DWAV ");
            reveal_strlit(",");
        }
        let mut c = ascii_bytes("DWAV ");
        push_decimal(&mut c, self.module as u64);
        let comma = ascii_bytes(",");
        push_bytes(&mut c, comma.as_slice());
        push_decimal(&mut c, self.port as u64);
        push_bytes(&mut c, comma.as_slice());
        push_fixed(&mut c, wavelength_pm as i64, 3);
        terminate(&mut c);
        Ok(c)
    }

    /// The command that sets the measurement mode; refused for any mode but
    /// `CONST1`, `CONST2`, `SWEEP1`, `SWEEP2` and `FREERUN`.
    pub fn set_measurement_mode(&self, mode: &[u8]) -> (r: Result<Vec<u8>, MeterError>)
        ensures
            r is Ok <==> is_measurement_mode(mode@),
            r is Err ==> r == Err::<Vec<u8>, MeterError>(MeterError::InvalidInput),
            r matches Ok(c) ==> c@ == line(ascii_of("WMOD "@) + mode@),
    {
        proof {
            reveal_strlit("CONST1");
            reveal_strlit("CONST2");
            reveal_strlit("SWEEP1");
            reveal_strlit("SWEEP2");
            reveal_strlit("FREERUN");
            reveal_strlit("WMOD ");
        }
        let m1 = ascii_bytes("CONST1");
        let m2 = ascii_bytes("CONST2");
        let m3 = ascii_bytes("SWEEP1");
        let m4 = ascii_bytes("SWEEP2");
        let m5 = ascii_bytes("FREERUN");
        let known = same_bytes(mode, m1.as_slice()) || same_bytes(mode, m2.as_slice())
            || same_bytes(mode, m3.as_slice()) || same_bytes(mode, m4.as_slice()) || same_bytes(
            mode,
            m5.as_slice(),
        );
        if !known {
            return Err(MeterError::InvalidInput);
        }
        let mut c = ascii_bytes("WMOD ");
        push_bytes(&mut c, mode);
        terminate(&mut c);
        Ok(c)
    }

    /// The command that sets the averaging time (hundredths of a
    /// millisecond); refused outside 0.01 to 10000 ms.
    pub fn set_averaging_time(&self, time_centi_ms: u64) -> (r: Result<Vec<u8>, MeterError>)
        ensures
            r is Ok <==> MIN_AVERAGING_CENTI_MS <= time_centi_ms <= MAX_AVERAGING_CENTI_MS,
            r is Err ==> r == Err::<Vec<u8>, MeterError>(MeterError::InvalidInput),
            r matches Ok(c) ==> c@ == line(ascii_of("AVG "@) + fixed_point(time_centi_ms as int, 2)),
    {
        if time_centi_ms < MIN_AVERAGING_CENTI_MS || time_centi_ms > MAX_AVERAGING_CENTI_MS {
            return Err(MeterError::InvalidInput);
        }
        proof {
            reveal_strlit("AVG ");
        }
        let mut c = ascii_bytes("AVG ");
        push_fixed(&mut c, time_centi_ms as i64, 2);
        terminate(&mut c);
        Ok(c)
    }

    /// The command that sets the unit of readings.
    pub fn set_power_unit(&self, unit: PowerUnit) -> (r: Vec<u8>)
        ensures
            r@ == line(ascii_of("UNIT "@) + ascii_of(unit.code())),
    {
        proof {
            reveal_strlit("UNIT ");
            reveal_strlit("0");
            reveal_strlit("1");
        }
        let mut c = ascii_bytes("UNIT ");
        let v = ascii_bytes(unit.to_command_value());
        push_bytes(&mut c, v.as_slice());
        terminate(&mut c);
        c
    }

    /// The zeroing command; the meter then needs `ZERO_SETTLE_MS`.
    pub fn zero() -> (r: Vec<u8>)
        ensures
            r@ == line(ascii_of("ZERO"@)),
    {
        proof {
            reveal_strlit("ZERO");
        }
        text_line("ZERO")
    }

    /// The query for the readings of every port of the selected module.
    pub fn read_power(&self) -> (r: Vec<u8>)
        ensures
            r@ == line(ascii_of("READ? "@) + decimal(self.module as nat)),
    {
        proof {
            reveal_strlit("READ? ");
        }
        let mut c = ascii_bytes("READ? ");
        push_decimal(&mut c, self.module as u64);
        terminate(&mut c);
        c
    }

    /// The field of a readings answer that belongs to the selected port:
    /// the answer is trimmed and split on commas, one field per port.
    pub fn power_field(&self, answer: &[u8]) -> (r: Result<Vec<u8>, MeterError>)
        requires
            self.wf(),
        ensures
            r is Ok <==> split_on(trimmed(answer@), 44u8).len() >= self.port,
            r is Err ==> r == Err::<Vec<u8>, MeterError>(MeterError::InvalidData),
            r matches Ok(f) ==> f@ == split_on(trimmed(answer@), 44u8)[self.port - 1],
    {
        let t = trim(answer);
        let fields = split(t.as_slice(), 44u8);
        let p = self.port as usize;
        if fields.len() < p {
            return Err(MeterError::InvalidData);
        }
        assert(views(fields@)[p - 1] == fields@[p - 1]@);
        let mut f: Vec<u8> = Vec::new();
        push_bytes(&mut f, fields[p - 1].as_slice());
        assert(f@ =~= fields@[p - 1]@);
        Ok(f)
    }

    /// The error-queue query.
    pub fn check_errors() -> (r: Vec<u8>)
        ensures
            r@ == line(ascii_of("ERR?"@)),
    {
        proof {
            reveal_strlit("ERR?");
        }
        text_line("ERR?")
    }
}

} // verus!
