use vstd::prelude::*;
use crate::codec::{Mode, RawVector, CalibrationStatus, mode_bits, mode_of_byte, vector_of_bytes,
    calibration_of_byte, fully_calibrated, decode_vector};
use crate::bus::{Bus, BusError, Transaction};
use crate::registers::{BUS_TIMEOUT, CHIP_ID, ID_REGISTER, PAGE_REGISTER, PAGE_0, PAGE_1, MODE_REGISTER,
    POWER_REGISTER, POWER_NORMAL, POWER_SUSPEND, TRIGGER_REGISTER, TRIGGER_RESET,
    TRIGGER_EXTERNAL_CRYSTAL, CALIBRATION_REGISTER, TEMPERATURE_REGISTER, ACCEL_DATA_REGISTER,
    ACCEL_CONFIG_REGISTER, MODE_SWITCH_DELAY_MS, RESET_DELAY_MS, SETTLE_DELAY_MS};

verus! {

/// Errors of the driver.
#[derive(Clone, Copy, Debug, PartialEq, Eq, Structural)]
pub enum Error {
    /// The transport failed.
    Bus(BusError),
    /// The device answered, but with another chip identity.
    UnexpectedChipId(u8),
    /// The mode register held a low nibble that names no mode.
    InvalidMode(u8),
}

/// The outcome that the transport reported for a transaction.
pub open spec fn tx_result(t: Transaction) -> Result<(), BusError> {
    match t {
        Transaction::Write { result, .. } => result,
        Transaction::WriteRead { result, .. } => result,
        Transaction::Delay { .. } => Ok(()),
    }
}

/// The bytes that a write-then-read transaction read back.
pub open spec fn tx_input(t: Transaction) -> Seq<u8> {
    match t {
        Transaction::WriteRead { input, .. } => input,
        _ => Seq::empty(),
    }
}

/// A transport outcome as a driver result.
pub open spec fn lift(r: Result<(), BusError>) -> Result<(), Error> {
    match r {
        Ok(()) => Ok(()),
        Err(e) => Err(Error::Bus(e)),
    }
}

/// The two-byte write of `value` to register `reg`.
pub open spec fn write_tx(address: u8, reg: u8, value: u8, result: Result<(), BusError>) -> Transaction {
    Transaction::Write { address, bytes: seq![reg, value], timeout: BUS_TIMEOUT, result }
}

/// The read of `input` starting at register `reg`.
pub open spec fn read_tx(address: u8, reg: u8, input: Seq<u8>, result: Result<(), BusError>) -> Transaction {
    Transaction::WriteRead { address, out: seq![reg], input, timeout: BUS_TIMEOUT, result }
}

/// A settling wait.
pub open spec fn delay_tx(ms: u32) -> Transaction {
    Transaction::Delay { ms }
}

/// The same transaction issued, whatever came back (the length read
/// included, not the bytes).
pub open spec fn same_request(a: Transaction, b: Transaction) -> bool {
    match (a, b) {
        (Transaction::Write { address: a1, bytes: b1, timeout: t1, .. },
         Transaction::Write { address: a2, bytes: b2, timeout: t2, .. }) => a1 == a2 && b1 == b2 && t1 == t2,
        (Transaction::WriteRead { address: a1, out: o1, input: i1, timeout: t1, .. },
         Transaction::WriteRead { address: a2, out: o2, input: i2, timeout: t2, .. }) =>
            a1 == a2 && o1 == o2 && i1.len() == i2.len() && t1 == t2,
        (Transaction::Delay { ms: m1 }, Transaction::Delay { ms: m2 }) => m1 == m2,
        _ => false,
    }
}

/// The transactions that `new` appended to `old`.
pub open spec fn added(new: Seq<Transaction>, old: Seq<Transaction>) -> Seq<Transaction> {
    new.subrange(old.len() as int, new.len() as int)
}

/// `new` is `old` with transactions appended.
pub open spec fn extends(new: Seq<Transaction>, old: Seq<Transaction>) -> bool {
    old.len() <= new.len() && new.subrange(0, old.len() as int) == old
}

/// Every transaction of `s` succeeded.
pub open spec fn all_ok(s: Seq<Transaction>) -> bool {
    forall|k: int| 0 <= k < s.len() ==> tx_result(#[trigger] s[k]) is Ok
}

/// The first transaction of `s` that failed, failed with `e`.
pub open spec fn first_failure(s: Seq<Transaction>, e: BusError) -> bool {
    exists|i: int| 0 <= i < s.len() && tx_result(#[trigger] s[i]) == Err::<(), BusError>(e)
        && all_ok(s.take(i))
}

/// Everything in `s` after index `j` is a settling wait.
pub open spec fn only_delays_after(s: Seq<Transaction>, j: int) -> bool {
    forall|i: int| j < i < s.len() ==> (#[trigger] s[i]) is Delay
}

/// What a one-byte read returns.
pub open spec fn byte_outcome(t: Transaction) -> Result<u8, Error> {
    match tx_result(t) {
        Ok(()) => Ok(tx_input(t)[0]),
        Err(e) => Err(Error::Bus(e)),
    }
}

/// What `get_mode` returns for its read of the mode register.
pub open spec fn mode_outcome(t: Transaction) -> Result<Mode, Error> {
    match tx_result(t) {
        Ok(()) => match mode_of_byte(tx_input(t)[0]) {
            Some(m) => Ok(m),
            None => Err(Error::InvalidMode((tx_input(t)[0] % 16) as u8)),
        },
        Err(e) => Err(Error::Bus(e)),
    }
}

/// A write of mode `m` to the mode register, whatever came back.
pub open spec fn is_mode_write(t: Transaction, address: u8, m: Mode) -> bool {
    t == write_tx(address, MODE_REGISTER, mode_bits(m), tx_result(t))
}

/// The transactions of a successful initialisation into mode `m`.
pub open spec fn init_trace(address: u8, m: Mode) -> Seq<Transaction> {
    seq![
        write_tx(address, PAGE_REGISTER, PAGE_0, Ok(())),
        read_tx(address, ID_REGISTER, seq![CHIP_ID], Ok(())),
        write_tx(address, MODE_REGISTER, mode_bits(Mode::Config), Ok(())),
        delay_tx(MODE_SWITCH_DELAY_MS),
        write_tx(address, TRIGGER_REGISTER, TRIGGER_RESET, Ok(())),
        delay_tx(RESET_DELAY_MS),
        write_tx(address, POWER_REGISTER, POWER_NORMAL, Ok(())),
        delay_tx(SETTLE_DELAY_MS),
        write_tx(address, PAGE_REGISTER, PAGE_0, Ok(())),
        write_tx(address, TRIGGER_REGISTER, 0, Ok(())),
        delay_tx(SETTLE_DELAY_MS),
        write_tx(address, MODE_REGISTER, mode_bits(m), Ok(())),
        delay_tx(MODE_SWITCH_DELAY_MS),
    ]
}

/// What initialisation into mode `m` does to a bus whose trace was `old`
/// and is `new` afterwards, with result `r`: the sequence of `init_trace`,
/// stopped at the first failed transaction (whose error is returned) or
/// after an identity read other than the expected chip.
pub open spec fn init_outcome(old: Seq<Transaction>, new: Seq<Transaction>, address: u8, m: Mode,
    r: Result<(), Error>) -> bool
{
    let tail = added(new, old);
    &&& extends(new, old)
    &&& (r is Ok ==> tail == init_trace(address, m))
    &&& (r matches Err(Error::Bus(e)) ==> 1 <= tail.len() <= init_trace(address, m).len()
        && tail.drop_last() == init_trace(address, m).take(tail.len() - 1)
        && same_request(tail.last(), init_trace(address, m)[tail.len() - 1])
        && tx_result(tail.last()) == Err::<(), BusError>(e))
    &&& (r matches Err(Error::UnexpectedChipId(id)) ==> id != CHIP_ID
        && tail == seq![
            write_tx(address, PAGE_REGISTER, PAGE_0, Ok(())),
            read_tx(address, ID_REGISTER, seq![id], Ok(())),
        ])
    &&& !(r matches Err(Error::InvalidMode(_)))
}

proof fn lemma_ok_unit(r: Result<(), BusError>)
    requires
        r is Ok,
    ensures
        r == Ok::<(), BusError>(()),
{
    match r {
        Ok(u) => {
            assert(u == ());
        },
        Err(_) => {},
    }
}

proof fn lemma_init_failure(old: Seq<Transaction>, new: Seq<Transaction>, address: u8, m: Mode,
    k: int, t: Transaction, e: BusError)
    requires
        0 <= k < init_trace(address, m).len(),
        new == old + init_trace(address, m).take(k).push(t),
        same_request(t, init_trace(address, m)[k]),
        tx_result(t) == Err::<(), BusError>(e),
    ensures
        init_outcome(old, new, address, m, Err(Error::Bus(e))),
{
    let it = init_trace(address, m);
    let tail = added(new, old);
    assert(tail =~= it.take(k).push(t));
    assert(tail.drop_last() =~= it.take(k));
    assert(new.subrange(0, old.len() as int) =~= old);
}

proof fn lemma_all_ok_push(s: Seq<Transaction>, t: Transaction)
    requires
        all_ok(s),
        tx_result(t) is Ok,
    ensures
        all_ok(s.push(t)),
{
    assert forall|k: int| 0 <= k < s.push(t).len() implies tx_result(#[trigger] s.push(t)[k]) is Ok by {
        if k < s.len() {
            assert(s.push(t)[k] == s[k]);
        }
    }
}

proof fn lemma_first_failure_push(s: Seq<Transaction>, t: Transaction, e: BusError)
    requires
        all_ok(s),
        tx_result(t) == Err::<(), BusError>(e),
    ensures
        first_failure(s.push(t), e),
{
    assert(s.push(t).take(s.len() as int) =~= s);
    assert(tx_result(s.push(t)[s.len() as int]) == Err::<(), BusError>(e));
}

proof fn lemma_first_failure_extend(s: Seq<Transaction>, t: Transaction, e: BusError)
    requires
        first_failure(s, e),
    ensures
        first_failure(s.push(t), e),
{
    let i = choose|i: int| 0 <= i < s.len() && tx_result(#[trigger] s[i]) == Err::<(), BusError>(e)
        && all_ok(s.take(i));
    assert(s.push(t).take(i) =~= s.take(i));
    assert(s.push(t)[i] == s[i]);
}

/// `fe` is the error of the first failed transaction of `s`, or `None` if
/// all of them succeeded.
pub open spec fn failure_status(s: Seq<Transaction>, fe: Option<BusError>) -> bool {
    match fe {
        None => all_ok(s),
        Some(e) => first_failure(s, e),
    }
}

/// The first failure after transaction `t`, given the first failure `fe` before it.
pub open spec fn next_failure(fe: Option<BusError>, t: Transaction) -> Option<BusError> {
    match fe {
        Some(e) => Some(e),
        None => match tx_result(t) {
            Ok(_) => None,
            Err(e) => Some(e),
        },
    }
}

/// The first failure after the one or two transactions of `cur` from index `from`.
pub open spec fn grown_failure(fe: Option<BusError>, cur: Seq<Transaction>, from: int) -> Option<BusError> {
    if cur.len() == from + 1 {
        next_failure(fe, cur[from])
    } else {
        next_failure(next_failure(fe, cur[from]), cur[from + 1])
    }
}

proof fn lemma_status_push(s: Seq<Transaction>, fe: Option<BusError>, t: Transaction)
    requires
        failure_status(s, fe),
    ensures
        failure_status(s.push(t), next_failure(fe, t)),
{
    match fe {
        None => match tx_result(t) {
            Ok(_) => lemma_all_ok_push(s, t),
            Err(e) => lemma_first_failure_push(s, t, e),
        },
        Some(e) => lemma_first_failure_extend(s, t, e),
    }
}

proof fn lemma_grow(t0: Seq<Transaction>, prev: Seq<Transaction>, cur: Seq<Transaction>,
    fe: Option<BusError>) -> (fe2: Option<BusError>)
    requires
        extends(prev, t0),
        extends(cur, prev),
        prev.len() < cur.len() <= prev.len() + 2,
        failure_status(added(prev, t0), fe),
    ensures
        extends(cur, t0),
        fe2 == grown_failure(fe, cur, prev.len() as int),
        failure_status(added(cur, t0), fe2),
{
    let a = added(prev, t0);
    let p = prev.len() as int;
    assert(cur.subrange(0, t0.len() as int) =~= t0) by {
        assert forall|i: int| 0 <= i < t0.len() implies cur[i] == t0[i] by {
            assert(cur.subrange(0, p)[i] == cur[i]);
            assert(prev.subrange(0, t0.len() as int)[i] == prev[i]);
        }
    }
    lemma_status_push(a, fe, cur[p]);
    let fe1 = next_failure(fe, cur[p]);
    if cur.len() == p + 1 {
        assert(added(cur, t0) =~= a.push(cur[p])) by {
            assert forall|i: int| 0 <= i < a.len() implies added(cur, t0)[i] == a.push(cur[p])[i] by {
                assert(cur.subrange(0, p)[t0.len() + i] == cur[t0.len() + i]);
            }
        }
        fe1
    } else {
        lemma_status_push(a.push(cur[p]), fe1, cur[p + 1]);
        assert(added(cur, t0) =~= a.push(cur[p]).push(cur[p + 1])) by {
            assert forall|i: int| 0 <= i < a.len() implies added(cur, t0)[i] == a.push(cur[p]).push(cur[p + 1])[i] by {
                assert(cur.subrange(0, p)[t0.len() + i] == cur[t0.len() + i]);
            }
        }
        next_failure(fe1, cur[p + 1])
    }
}

/// The save/restore shape shared by the operations that force Config mode:
/// the mode register is read first; if that yields no mode its error is
/// returned and nothing else happens; otherwise the last transaction that is
/// not a wait writes the saved mode back, and any bus error returned is that
/// of the first failed transaction.
pub open spec fn save_restore_outcome<T>(old: Seq<Transaction>, new: Seq<Transaction>, address: u8,
    r: Result<T, Error>) -> bool
{
    let tail = added(new, old);
    &&& extends(new, old)
    &&& tail.len() >= 1
    &&& tail[0] == read_tx(address, MODE_REGISTER, tx_input(tail[0]), tx_result(tail[0]))
    &&& tx_input(tail[0]).len() == 1
    &&& (mode_outcome(tail[0]) matches Err(e) ==> tail.len() == 1
        && (r matches Err(e2) && e2 == e))
    &&& (mode_outcome(tail[0]) matches Ok(m) ==> exists|j: int| 0 < j < tail.len()
        && is_mode_write(#[trigger] tail[j], address, m) && only_delays_after(tail, j))
    &&& (mode_outcome(tail[0]) is Ok && r is Err ==> r matches Err(Error::Bus(_)))
    &&& (r matches Err(Error::Bus(e)) ==> first_failure(tail, e))
}

/// The transactions of a successful `set_external_crystal(value)` after
/// reading mode `m` with transaction `first`.
pub open spec fn set_crystal_trace(address: u8, first: Transaction, m: Mode, value: bool) -> Seq<Transaction> {
    seq![
        first,
        write_tx(address, MODE_REGISTER, mode_bits(Mode::Config), Ok(())),
        delay_tx(MODE_SWITCH_DELAY_MS),
        write_tx(address, PAGE_REGISTER, PAGE_0, Ok(())),
        write_tx(address, TRIGGER_REGISTER, crystal_byte(value), Ok(())),
        write_tx(address, MODE_REGISTER, mode_bits(m), Ok(())),
        delay_tx(MODE_SWITCH_DELAY_MS),
        delay_tx(SETTLE_DELAY_MS),
    ]
}

/// The transactions of a successful `get_external_crystal` after reading
/// mode `m` with transaction `first` and the trigger register with `trigger`.
pub open spec fn get_crystal_trace(address: u8, first: Transaction, trigger: Transaction, m: Mode) -> Seq<Transaction> {
    seq![
        first,
        write_tx(address, MODE_REGISTER, mode_bits(Mode::Config), Ok(())),
        delay_tx(MODE_SWITCH_DELAY_MS),
        write_tx(address, PAGE_REGISTER, PAGE_0, Ok(())),
        trigger,
        write_tx(address, MODE_REGISTER, mode_bits(m), Ok(())),
        delay_tx(MODE_SWITCH_DELAY_MS),
    ]
}

/// The page-restore shape of the operations that use page 1: page 1 is
/// selected first; if that succeeded, the last transaction selects page 0
/// again, whatever failed in between; any bus error returned is that of the
/// first failed transaction.
pub open spec fn page_restore_outcome<T>(old: Seq<Transaction>, new: Seq<Transaction>, address: u8,
    r: Result<T, Error>) -> bool
{
    let tail = added(new, old);
    &&& extends(new, old)
    &&& tail.len() >= 1
    &&& tail[0] == write_tx(address, PAGE_REGISTER, PAGE_1, tx_result(tail[0]))
    &&& (tx_result(tail[0]) is Err ==> tail.len() == 1)
    &&& (tx_result(tail[0]) is Ok ==> tail.last() == write_tx(address, PAGE_REGISTER, PAGE_0, tx_result(tail.last())))
    &&& (r is Err ==> r matches Err(Error::Bus(_)))
    &&& (r matches Err(Error::Bus(e)) ==> first_failure(tail, e))
}

/// The byte written to the system-trigger register to select the crystal.
pub open spec fn crystal_byte(external: bool) -> u8 {
    if external { TRIGGER_EXTERNAL_CRYSTAL } else { 0 }
}

/// A mode-register byte whose low nibble is the byte that `set_mode(m)`
/// wrote makes `get_mode` return `m`.
pub proof fn lemma_get_mode_after_set_mode(m: Mode, t: Transaction)
    requires
        tx_result(t) is Ok,
        tx_input(t).len() == 1,
        tx_input(t)[0] % 16 == mode_bits(m),
    ensures
        mode_outcome(t) == Ok::<Mode, Error>(m),
{
    crate::codec::lemma_mode_round_trip(m);
}

/// A successful read of the mode register makes `get_mode` fail with
/// `InvalidMode` exactly when the low nibble of the byte names no mode.
pub proof fn lemma_get_mode_invalid(t: Transaction)
    requires
        tx_result(t) is Ok,
        tx_input(t).len() == 1,
    ensures
        mode_outcome(t) matches Err(Error::InvalidMode(n)) <==> tx_input(t)[0] % 16 > 12,
        mode_outcome(t) matches Err(Error::InvalidMode(n)) ==> n == tx_input(t)[0] % 16,
{
    crate::codec::lemma_invalid_mode(tx_input(t)[0]);
}

/// The device handle: owns the bus, and keeps the device's mode and register
/// page as last successfully written.
pub struct Bno055<B: Bus> {
    bus: B,
    address: u8,
    mode: Mode,
    page: u8,
}

impl<B: Bus> Bno055<B> {
    /// The transactions performed on the bus so far.
    pub closed spec fn trace(&self) -> Seq<Transaction> {
        self.bus.trace()
    }

    /// The mode last successfully written.
    pub closed spec fn mode(&self) -> Mode {
        self.mode
    }

    /// The register page last successfully selected.
    pub closed spec fn page(&self) -> u8 {
        self.page
    }

    /// The 7-bit bus address.
    pub closed spec fn address(&self) -> u8 {
        self.address
    }

    /// Binds a bus and an address without any transaction; the device is
    /// taken to be in Config mode on page 0, as after power-up.
    pub fn bind(bus: B, address: u8) -> (r: Self)
        ensures
            r.trace() == bus.trace(),
            r.address() == address,
            r.mode() == Mode::Config,
            r.page() == PAGE_0,
    {
        Bno055 { bus, address, mode: Mode::Config, page: PAGE_0 }
    }

    /// The mode last successfully written.
    pub fn current_mode(&self) -> (r: Mode)
        ensures
            r == self.mode(),
    {
        self.mode
    }

    /// The register page last successfully selected.
    pub fn current_page(&self) -> (r: u8)
        ensures
            r == self.page(),
    {
        self.page
    }

    /// Gives the bus back.
    pub fn release(self) -> (r: B)
        ensures
            r.trace() == self.trace(),
    {
        self.bus
    }

    /// Writes `value` to register `reg` in one two-byte transaction.
    fn write_register(&mut self, reg: u8, value: u8) -> (r: Result<(), Error>)
        ensures
            final(self).trace() == old(self).trace().push(
                write_tx(old(self).address(), reg, value, tx_result(final(self).trace().last()))),
            r == lift(tx_result(final(self).trace().last())),
            final(self).address() == old(self).address(),
            final(self).mode() == old(self).mode(),
            final(self).page() == (if reg == PAGE_REGISTER && r is Ok { value } else { old(self).page() }),
    {
        let bytes: [u8; 2] = [reg, value];
        let res = self.bus.write(self.address, &bytes, BUS_TIMEOUT);
        assert(bytes@ =~= seq![reg, value]);
        match res {
            Ok(()) => {
                if reg == PAGE_REGISTER {
                    self.page = value;
                }
                Ok(())
            },
            Err(e) => Err(Error::Bus(e)),
        }
    }

    fn delay(&mut self, ms: u32)
        ensures
            final(self).trace() == old(self).trace().push(delay_tx(ms)),
            final(self).address() == old(self).address(),
            final(self).mode() == old(self).mode(),
            final(self).page() == old(self).page(),
    {
        self.bus.delay_ms(ms);
    }

    /// Reads one byte from register `reg`.
    pub fn read_register(&mut self, reg: u8) -> (r: Result<u8, Error>)
        ensures
            final(self).trace() == old(self).trace().push(read_tx(old(self).address(), reg,
                tx_input(final(self).trace().last()), tx_result(final(self).trace().last()))),
            tx_input(final(self).trace().last()).len() == 1,
            r == byte_outcome(final(self).trace().last()),
            final(self).address() == old(self).address(),
            final(self).mode() == old(self).mode(),
            final(self).page() == old(self).page(),
    {
        let out: [u8; 1] = [reg];
        let mut buf: [u8; 1] = [0u8; 1];
        let res = self.bus.write_read(self.address, &out, &mut buf, BUS_TIMEOUT);
        assert(out@ =~= seq![reg]);
        match res {
            Ok(()) => Ok(buf[0]),
            Err(e) => Err(Error::Bus(e)),
        }
    }

    /// Selects register page `page`.
    pub fn set_page(&mut self, page: u8) -> (r: Result<(), Error>)
        ensures
            final(self).trace() == old(self).trace().push(
                write_tx(old(self).address(), PAGE_REGISTER, page, tx_result(final(self).trace().last()))),
            r == lift(tx_result(final(self).trace().last())),
            final(self).address() == old(self).address(),
            final(self).mode() == old(self).mode(),
            final(self).page() == (if r is Ok { page } else { old(self).page() }),
    {
        self.write_register(PAGE_REGISTER, page)
    }

    /// Writes `value` to register `reg`, then waits `ms` if the write succeeded.
    fn write_and_wait(&mut self, reg: u8, value: u8, ms: u32) -> (r: Result<(), Error>)
        requires
            reg != PAGE_REGISTER,
        ensures
            r is Ok ==> final(self).trace() == old(self).trace()
                + seq![write_tx(old(self).address(), reg, value, Ok(())), delay_tx(ms)],
            r matches Err(Error::Bus(e)) ==> final(self).trace() == old(self).trace().push(
                write_tx(old(self).address(), reg, value, Err(e))),
            r is Err ==> r matches Err(Error::Bus(_)),
            final(self).address() == old(self).address(),
            final(self).mode() == old(self).mode(),
            final(self).page() == old(self).page(),
    {
        let res = self.write_register(reg, value);
        let ghost mid = self.trace();
        match res {
            Ok(()) => {
                proof { lemma_ok_unit(tx_result(mid.last())); }
                assert(mid == old(self).trace().push(write_tx(old(self).address(), reg, value, Ok(()))));
                self.delay(ms);
                assert(self.trace() =~= old(self).trace()
                    + seq![write_tx(old(self).address(), reg, value, Ok(())), delay_tx(ms)]);
                Ok(())
            },
            Err(e) => Err(e),
        }
    }

    /// Writes the mode register and waits for the switch to settle.
    pub fn set_mode(&mut self, new_mode: Mode) -> (r: Result<(), Error>)
        ensures
            r is Ok ==> final(self).trace() == old(self).trace() + seq![
                write_tx(old(self).address(), MODE_REGISTER, mode_bits(new_mode), Ok(())),
                delay_tx(MODE_SWITCH_DELAY_MS),
            ],
            r matches Err(Error::Bus(e)) ==> final(self).trace() == old(self).trace().push(
                write_tx(old(self).address(), MODE_REGISTER, mode_bits(new_mode), Err(e))),
            r is Err ==> r matches Err(Error::Bus(_)),
            final(self).address() == old(self).address(),
            final(self).mode() == (if r is Ok { new_mode } else { old(self).mode() }),
            final(self).page() == old(self).page(),
    {
        let res = self.write_and_wait(MODE_REGISTER, new_mode.bits(), MODE_SWITCH_DELAY_MS);
        if let Ok(()) = res {
            self.mode = new_mode;
        }
        res
    }

    /// Reads the mode register and decodes its low four bits.
    pub fn get_mode(&mut self) -> (r: Result<Mode, Error>)
        ensures
            final(self).trace() == old(self).trace().push(read_tx(old(self).address(), MODE_REGISTER,
                tx_input(final(self).trace().last()), tx_result(final(self).trace().last()))),
            tx_input(final(self).trace().last()).len() == 1,
            r == mode_outcome(final(self).trace().last()),
            final(self).address() == old(self).address(),
            final(self).mode() == old(self).mode(),
            final(self).page() == old(self).page(),
    {
        let b = self.read_register(MODE_REGISTER);
        match b {
            Ok(b) => match Mode::from_byte(b) {
                Some(m) => Ok(m),
                None => {
                    let nibble: u8 = b & 0x0F;
                    assert(nibble == b % 16) by (bit_vector)
                        requires nibble == b & 0x0F;
                    Err(Error::InvalidMode(nibble))
                },
            },
            Err(e) => Err(e),
        }
    }

    /// Triggers a soft reset and waits for the device to reboot; the device
    /// comes back in Config mode.
    pub fn reset(&mut self) -> (r: Result<(), Error>)
        ensures
            r is Ok ==> final(self).trace() == old(self).trace() + seq![
                write_tx(old(self).address(), TRIGGER_REGISTER, TRIGGER_RESET, Ok(())),
                delay_tx(RESET_DELAY_MS),
            ],
            r matches Err(Error::Bus(e)) ==> final(self).trace() == old(self).trace().push(
                write_tx(old(self).address(), TRIGGER_REGISTER, TRIGGER_RESET, Err(e))),
            r is Err ==> r matches Err(Error::Bus(_)),
            final(self).address() == old(self).address(),
            final(self).mode() == (if r is Ok { Mode::Config } else { old(self).mode() }),
            final(self).page() == old(self).page(),
    {
        let res = self.write_and_wait(TRIGGER_REGISTER, TRIGGER_RESET, RESET_DELAY_MS);
        if let Ok(()) = res {
            self.mode = Mode::Config;
        }
        res
    }

    /// Puts the device in normal power mode and waits for it to settle.
    pub fn set_normal_mode(&mut self) -> (r: Result<(), Error>)
        ensures
            r is Ok ==> final(self).trace() == old(self).trace() + seq![
                write_tx(old(self).address(), POWER_REGISTER, POWER_NORMAL, Ok(())),
                delay_tx(SETTLE_DELAY_MS),
            ],
            r matches Err(Error::Bus(e)) ==> final(self).trace() == old(self).trace().push(
                write_tx(old(self).address(), POWER_REGISTER, POWER_NORMAL, Err(e))),
            r is Err ==> r matches Err(Error::Bus(_)),
            final(self).address() == old(self).address(),
            final(self).mode() == old(self).mode(),
            final(self).page() == old(self).page(),
    {
        self.write_and_wait(POWER_REGISTER, POWER_NORMAL, SETTLE_DELAY_MS)
    }

    /// Puts the device in suspend power mode.
    pub fn set_suspend_mode(&mut self) -> (r: Result<(), Error>)
        ensures
            final(self).trace() == old(self).trace().push(
                write_tx(old(self).address(), POWER_REGISTER, POWER_SUSPEND, tx_result(final(self).trace().last()))),
            r == lift(tx_result(final(self).trace().last())),
            final(self).address() == old(self).address(),
            final(self).mode() == old(self).mode(),
            final(self).page() == old(self).page(),
    {
        self.write_register(POWER_REGISTER, POWER_SUSPEND)
    }

    /// Reads and decodes the calibration register.
    pub fn get_calibration_status(&mut self) -> (r: Result<CalibrationStatus, Error>)
        ensures
            final(self).trace() == old(self).trace().push(read_tx(old(self).address(), CALIBRATION_REGISTER,
                tx_input(final(self).trace().last()), tx_result(final(self).trace().last()))),
            tx_input(final(self).trace().last()).len() == 1,
            r == (match byte_outcome(final(self).trace().last()) {
                Ok(b) => Ok(calibration_of_byte(b)),
                Err(e) => Err(e),
            }),
            final(self).address() == old(self).address(),
            final(self).mode() == old(self).mode(),
            final(self).page() == old(self).page(),
    {
        let b = self.read_register(CALIBRATION_REGISTER);
        match b {
            Ok(b) => Ok(CalibrationStatus::from_byte(b)),
            Err(e) => Err(e),
        }
    }

    /// Whether all four subsystems report full calibration.
    pub fn is_calibrated(&mut self) -> (r: Result<bool, Error>)
        ensures
            final(self).trace() == old(self).trace().push(read_tx(old(self).address(), CALIBRATION_REGISTER,
                tx_input(final(self).trace().last()), tx_result(final(self).trace().last()))),
            tx_input(final(self).trace().last()).len() == 1,
            r == (match byte_outcome(final(self).trace().last()) {
                Ok(b) => Ok(fully_calibrated(calibration_of_byte(b))),
                Err(e) => Err(e),
            }),
            final(self).address() == old(self).address(),
            final(self).mode() == old(self).mode(),
            final(self).page() == old(self).page(),
    {
        let c = self.get_calibration_status();
        match c {
            Ok(c) => Ok(c.is_fully_calibrated()),
            Err(e) => Err(e),
        }
    }

    /// Reads a 6-byte block starting at `reg` and decodes three little-endian
    /// signed 16-bit axis readings.
    pub fn read_vec(&mut self, reg: u8) -> (r: Result<RawVector, Error>)
        ensures
            final(self).trace() == old(self).trace().push(read_tx(old(self).address(), reg,
                tx_input(final(self).trace().last()), tx_result(final(self).trace().last()))),
            tx_input(final(self).trace().last()).len() == 6,
            r == (match tx_result(final(self).trace().last()) {
                Ok(()) => Ok(vector_of_bytes(tx_input(final(self).trace().last()))),
                Err(e) => Err(Error::Bus(e)),
            }),
            final(self).address() == old(self).address(),
            final(self).mode() == old(self).mode(),
            final(self).page() == old(self).page(),
    {
        let out: [u8; 1] = [reg];
        let mut buf: [u8; 6] = [0u8; 6];
        let res = self.bus.write_read(self.address, &out, &mut buf, BUS_TIMEOUT);
        assert(out@ =~= seq![reg]);
        match res {
            Ok(()) => Ok(decode_vector(&buf)),
            Err(e) => Err(Error::Bus(e)),
        }
    }

    /// Reads the temperature register, in whole degrees Celsius.
    pub fn read_temperature(&mut self) -> (r: Result<u8, Error>)
        ensures
            final(self).trace() == old(self).trace().push(read_tx(old(self).address(), TEMPERATURE_REGISTER,
                tx_input(final(self).trace().last()), tx_result(final(self).trace().last()))),
            tx_input(final(self).trace().last()).len() == 1,
            r == byte_outcome(final(self).trace().last()),
            final(self).address() == old(self).address(),
            final(self).mode() == old(self).mode(),
            final(self).page() == old(self).page(),
    {
        self.read_register(TEMPERATURE_REGISTER)
    }

    /// Reads the raw accelerometer block; one unit is 0.01 m/s^2.
    pub fn read_accel(&mut self) -> (r: Result<RawVector, Error>)
        ensures
            final(self).trace() == old(self).trace().push(read_tx(old(self).address(), ACCEL_DATA_REGISTER,
                tx_input(final(self).trace().last()), tx_result(final(self).trace().last()))),
            tx_input(final(self).trace().last()).len() == 6,
            r == (match tx_result(final(self).trace().last()) {
                Ok(()) => Ok(vector_of_bytes(tx_input(final(self).trace().last()))),
                Err(e) => Err(Error::Bus(e)),
            }),
            final(self).address() == old(self).address(),
            final(self).mode() == old(self).mode(),
            final(self).page() == old(self).page(),
    {
        self.read_vec(ACCEL_DATA_REGISTER)
    }

    /// Initialises the device: selects page 0, checks the chip identity,
    /// forces Config mode, resets, selects normal power, selects page 0 and
    /// clears the system trigger, then switches to `mode`, waiting after each
    /// step as the device requires. Stops at the first failure.
    pub fn init(&mut self, mode: Mode) -> (r: Result<(), Error>)
        ensures
            init_outcome(old(self).trace(), final(self).trace(), old(self).address(), mode, r),
            r is Ok ==> final(self).mode() == mode && final(self).page() == PAGE_0,
            final(self).address() == old(self).address(),
    {
        let ghost t0 = self.trace();
        let ghost it = init_trace(self.address, mode);
        let page = self.set_page(PAGE_0);
        match page {
            Ok(()) => {
                proof { lemma_ok_unit(tx_result(self.trace().last())); }
            },
            Err(e) => {
                proof {
                    let t = self.trace().last();
                    assert(self.trace() =~= t0 + it.take(0).push(t));
                    lemma_init_failure(t0, self.trace(), self.address, mode, 0, t, e->Bus_0);
                }
                return Err(e);
            },
        }
                assert(self.trace() =~= t0 + it.take(1));
        let id = match self.read_register(ID_REGISTER) {
            Ok(id) => id,
            Err(e) => {
                proof {
                    let t = self.trace().last();
                    assert(self.trace() =~= t0 + it.take(1).push(t));
                    lemma_init_failure(t0, self.trace(), self.address, mode, 1, t, e->Bus_0);
                }
                return Err(e);
            },
        };
        assert(tx_input(self.trace().last()) =~= seq![id]);
        proof { lemma_ok_unit(tx_result(self.trace().last())); }
        if id != CHIP_ID {
            assert(added(self.trace(), t0) =~= seq![
                write_tx(self.address, PAGE_REGISTER, PAGE_0, Ok(())),
                read_tx(self.address, ID_REGISTER, seq![id], Ok(())),
            ]);
            assert(self.trace().subrange(0, t0.len() as int) =~= t0);
            return Err(Error::UnexpectedChipId(id));
        }
        proof { lemma_ok_unit(tx_result(self.trace().last())); }
                assert(self.trace() =~= t0 + it.take(2));
        match self.set_mode(Mode::Config) {
            Ok(()) => {},
            Err(e) => {
                proof {
                    let t = self.trace().last();
                    assert(self.trace() =~= t0 + it.take(2).push(t));
                    lemma_init_failure(t0, self.trace(), self.address, mode, 2, t, e->Bus_0);
                }
                return Err(e);
            },
        }
                assert(self.trace() =~= t0 + it.take(4));
        match self.reset() {
            Ok(()) => {},
            Err(e) => {
                proof {
                    let t = self.trace().last();
                    assert(self.trace() =~= t0 + it.take(4).push(t));
                    lemma_init_failure(t0, self.trace(), self.address, mode, 4, t, e->Bus_0);
                }
                return Err(e);
            },
        }
                assert(self.trace() =~= t0 + it.take(6));
        match self.set_normal_mode() {
            Ok(()) => {},
            Err(e) => {
                proof {
                    let t = self.trace().last();
                    assert(self.trace() =~= t0 + it.take(6).push(t));
                    lemma_init_failure(t0, self.trace(), self.address, mode, 6, t, e->Bus_0);
                }
                return Err(e);
            },
        }
                assert(self.trace() =~= t0 + it.take(8));
        match self.set_page(PAGE_0) {
            Ok(()) => {
                proof { lemma_ok_unit(tx_result(self.trace().last())); }
            },
            Err(e) => {
                proof {
                    let t = self.trace().last();
                    assert(self.trace() =~= t0 + it.take(8).push(t));
                    lemma_init_failure(t0, self.trace(), self.address, mode, 8, t, e->Bus_0);
                }
                return Err(e);
            },
        }
                assert(self.trace() =~= t0 + it.take(9));
        match self.write_register(TRIGGER_REGISTER, 0) {
            Ok(()) => {
                proof { lemma_ok_unit(tx_result(self.trace().last())); }
            },
            Err(e) => {
                proof {
                    let t = self.trace().last();
                    assert(self.trace() =~= t0 + it.take(9).push(t));
                    lemma_init_failure(t0, self.trace(), self.address, mode, 9, t, e->Bus_0);
                }
                return Err(e);
            },
        }
        self.delay(SETTLE_DELAY_MS);
                assert(self.trace() =~= t0 + it.take(11));
        match self.set_mode(mode) {
            Ok(()) => {},
            Err(e) => {
                proof {
                    let t = self.trace().last();
                    assert(self.trace() =~= t0 + it.take(11).push(t));
                    lemma_init_failure(t0, self.trace(), self.address, mode, 11, t, e->Bus_0);
                }
                return Err(e);
            },
        }
        assert(added(self.trace(), t0) =~= it);
        assert(self.trace().subrange(0, t0.len() as int) =~= t0);
        Ok(())
    }

    /// Binds `bus` and `address` and initialises the device into `mode`.
    /// On failure the error comes back with the bus.
    pub fn open(bus: B, address: u8, mode: Mode) -> (r: Result<Self, (Error, B)>)
        ensures
            match r {
                Ok(d) => init_outcome(bus.trace(), d.trace(), address, mode, Ok(()))
                    && d.mode() == mode && d.page() == PAGE_0 && d.address() == address,
                Err((e, b)) => init_outcome(bus.trace(), b.trace(), address, mode, Err(e)),
            },
    {
        let mut d = Self::bind(bus, address);
        match d.init(mode) {
            Ok(()) => Ok(d),
            Err(e) => Err((e, d.release())),
        }
    }

    /// Binds `bus` and `address` and initialises the device into full
    /// nine-degrees-of-freedom fusion. On failure the error comes back with
    /// the bus.
    pub fn new(bus: B, address: u8) -> (r: Result<Self, (Error, B)>)
        ensures
            match r {
                Ok(d) => init_outcome(bus.trace(), d.trace(), address, Mode::Ndof, Ok(()))
                    && d.mode() == Mode::Ndof && d.page() == PAGE_0 && d.address() == address,
                Err((e, b)) => init_outcome(bus.trace(), b.trace(), address, Mode::Ndof, Err(e)),
            },
    {
        Self::open(bus, address, Mode::Ndof)
    }

    /// Selects the external crystal (`true`) or the internal oscillator.
    /// The mode in force is read first, Config mode is forced for the write,
    /// and the saved mode is written back even when the write fails; the
    /// first failure's error is the one returned.
    #[verifier::rlimit(80)]
    pub fn set_external_crystal(&mut self, value: bool) -> (r: Result<(), Error>)
        ensures
            save_restore_outcome(old(self).trace(), final(self).trace(), old(self).address(), r),
            mode_outcome(added(final(self).trace(), old(self).trace())[0]) matches Ok(m) ==> (r is Ok ==>
                added(final(self).trace(), old(self).trace()) == set_crystal_trace(old(self).address(),
                    added(final(self).trace(), old(self).trace())[0], m, value)
                && final(self).mode() == m && final(self).page() == PAGE_0),
            final(self).address() == old(self).address(),
    {
        let ghost t0 = self.trace();
        let last = match self.get_mode() {
            Ok(m) => m,
            Err(e) => {
                assert(added(self.trace(), t0) =~= seq![self.trace().last()]);
                assert(self.trace().subrange(0, t0.len() as int) =~= t0);
                return Err(e);
            },
        };
        let ghost first = self.trace().last();
        let ghost mut fe: Option<BusError> = None;
        proof {
            assert(added(self.trace(), t0) =~= seq![first]);
            assert(self.trace().subrange(0, t0.len() as int) =~= t0);
            assert(tx_result(seq![first][0]) is Ok);
        }
        let byte: u8 = if value { TRIGGER_EXTERNAL_CRYSTAL } else { 0 };
        let ghost before = self.trace();
        let mut inner = self.set_mode(Mode::Config);
        proof {
            assert(self.trace().subrange(0, before.len() as int) =~= before);
            fe = lemma_grow(t0, before, self.trace(), fe);
        }
        if let Ok(()) = inner {
            let ghost before = self.trace();
            inner = self.set_page(PAGE_0);
            proof {
            assert(self.trace().subrange(0, before.len() as int) =~= before);
            fe = lemma_grow(t0, before, self.trace(), fe);
        }
        }
        if let Ok(()) = inner {
            let ghost before = self.trace();
            inner = self.write_register(TRIGGER_REGISTER, byte);
            proof {
            assert(self.trace().subrange(0, before.len() as int) =~= before);
            fe = lemma_grow(t0, before, self.trace(), fe);
        }
        }
        assert(inner is Ok ==> fe is None);
        assert(inner matches Err(Error::Bus(e)) ==> fe == Some(e));
        assert(inner is Err ==> inner matches Err(Error::Bus(_)));
        let ghost j: int = self.trace().len() - t0.len();
        let ghost before = self.trace();
        let restore = self.set_mode(last);
        proof {
            assert(self.trace().subrange(0, before.len() as int) =~= before);
            fe = lemma_grow(t0, before, self.trace(), fe);
        }
        proof {
            let tail = added(self.trace(), t0);
            assert(tail[0] == first);
            assert(tail[j] == self.trace()[before.len() as int]);
            assert(is_mode_write(tail[j], self.address, last));
            if restore is Ok {
                assert(tail[j + 1] == self.trace()[before.len() + 1int]);
            }
            assert(only_delays_after(tail, j));
        }
        match inner {
            Err(e) => Err(e),
            Ok(()) => match restore {
                Err(e) => Err(e),
                Ok(()) => {
                    let ghost before = self.trace();
                    self.delay(SETTLE_DELAY_MS);
                    proof {
                        assert(self.trace().subrange(0, before.len() as int) =~= before);
                        fe = lemma_grow(t0, before, self.trace(), fe);
                        let tail = added(self.trace(), t0);
                        assert(tail[0] == first);
                        assert(tail[j] == self.trace()[t0.len() as int + j]);
                        assert(tail[j + 1] == self.trace()[t0.len() as int + j + 1]);
                        assert(tail[j + 2] == self.trace()[t0.len() as int + j + 2]);
                        assert(only_delays_after(tail, j));
                        lemma_ok_unit(tx_result(tail[1]));
                        lemma_ok_unit(tx_result(tail[3]));
                        lemma_ok_unit(tx_result(tail[4]));
                        lemma_ok_unit(tx_result(tail[5]));
                        assert(tail =~= set_crystal_trace(self.address, first, last, value));
                    }
                    Ok(())
                },
            },
        }
    }

    /// Whether the external crystal is selected: the crystal-select bit of
    /// the system-trigger register, read in Config mode. The saved mode is
    /// written back even when the read fails; the first failure's error is
    /// the one returned.
    #[verifier::rlimit(80)]
    pub fn get_external_crystal(&mut self) -> (r: Result<bool, Error>)
        ensures
            save_restore_outcome(old(self).trace(), final(self).trace(), old(self).address(), r),
            mode_outcome(added(final(self).trace(), old(self).trace())[0]) matches Ok(m) ==> (r is Ok ==>
                added(final(self).trace(), old(self).trace()) == get_crystal_trace(old(self).address(),
                    added(final(self).trace(), old(self).trace())[0],
                    read_tx(old(self).address(), TRIGGER_REGISTER,
                        tx_input(added(final(self).trace(), old(self).trace())[4]), Ok(())),
                    m)
                && tx_input(added(final(self).trace(), old(self).trace())[4]).len() == 1
                && r == Ok::<bool, Error>(
                    tx_input(added(final(self).trace(), old(self).trace())[4])[0] >= TRIGGER_EXTERNAL_CRYSTAL)
                && final(self).mode() == m && final(self).page() == PAGE_0),
            final(self).address() == old(self).address(),
    {
        let ghost t0 = self.trace();
        let last = match self.get_mode() {
            Ok(m) => m,
            Err(e) => {
                assert(added(self.trace(), t0) =~= seq![self.trace().last()]);
                assert(self.trace().subrange(0, t0.len() as int) =~= t0);
                return Err(e);
            },
        };
        let ghost first = self.trace().last();
        let ghost mut fe: Option<BusError> = None;
        proof {
            assert(added(self.trace(), t0) =~= seq![first]);
            assert(self.trace().subrange(0, t0.len() as int) =~= t0);
            assert(tx_result(seq![first][0]) is Ok);
        }
        let ghost before = self.trace();
        let mut inner: Result<u8, Error> = match self.set_mode(Mode::Config) {
            Ok(()) => Ok(0),
            Err(e) => Err(e),
        };
        proof {
            assert(self.trace().subrange(0, before.len() as int) =~= before);
            fe = lemma_grow(t0, before, self.trace(), fe);
        }
        if let Ok(_) = inner {
            let ghost before = self.trace();
            inner = match self.set_page(PAGE_0) {
                Ok(()) => Ok(0),
                Err(e) => Err(e),
            };
            proof {
            assert(self.trace().subrange(0, before.len() as int) =~= before);
            fe = lemma_grow(t0, before, self.trace(), fe);
        }
        }
        if let Ok(_) = inner {
            let ghost before = self.trace();
            inner = self.read_register(TRIGGER_REGISTER);
            proof {
            assert(self.trace().subrange(0, before.len() as int) =~= before);
            fe = lemma_grow(t0, before, self.trace(), fe);
        }
        }
        assert(inner is Ok ==> fe is None);
        assert(inner matches Err(Error::Bus(e)) ==> fe == Some(e));
        assert(inner is Err ==> inner matches Err(Error::Bus(_)));
        let ghost j: int = self.trace().len() - t0.len();
        let ghost before = self.trace();
        let restore = self.set_mode(last);
        proof {
            assert(self.trace().subrange(0, before.len() as int) =~= before);
            fe = lemma_grow(t0, before, self.trace(), fe);
        }
        proof {
            let tail = added(self.trace(), t0);
            assert(tail[0] == first);
            assert(tail[j] == self.trace()[before.len() as int]);
            assert(is_mode_write(tail[j], self.address, last));
            if restore is Ok {
                assert(tail[j + 1] == self.trace()[before.len() + 1int]);
            }
            assert(only_delays_after(tail, j));
        }
        match inner {
            Err(e) => Err(e),
            Ok(b) => match restore {
                Err(e) => Err(e),
                Ok(()) => {
                    let bit: u8 = b & TRIGGER_EXTERNAL_CRYSTAL;
                    assert((bit != 0) == (b >= 0x80)) by (bit_vector)
                        requires bit == b & 0x80;
                    proof {
                        let tail = added(self.trace(), t0);
                        assert(tail[0] == first);
                        assert(tail[4] == self.trace()[t0.len() as int + 4]);
                        assert(tx_input(tail[4]) =~= seq![b]);
                        lemma_ok_unit(tx_result(tail[1]));
                        lemma_ok_unit(tx_result(tail[3]));
                        lemma_ok_unit(tx_result(tail[4]));
                        lemma_ok_unit(tx_result(tail[5]));
                        assert(tail =~= get_crystal_trace(self.address, first,
                            read_tx(self.address, TRIGGER_REGISTER, tx_input(tail[4]), Ok(())), last));
                    }
                    Ok(bit != 0)
                },
            },
        }
    }

    /// Reads the accelerometer range code (low two bits of the accelerometer
    /// configuration, on page 1), then selects page 0 again, also when the
    /// read fails.
    pub fn get_accel_range(&mut self) -> (r: Result<u8, Error>)
        ensures
            page_restore_outcome(old(self).trace(), final(self).trace(), old(self).address(), r),
            r is Ok ==> added(final(self).trace(), old(self).trace()) == seq![
                write_tx(old(self).address(), PAGE_REGISTER, PAGE_1, Ok(())),
                read_tx(old(self).address(), ACCEL_CONFIG_REGISTER,
                    tx_input(added(final(self).trace(), old(self).trace())[1]), Ok(())),
                write_tx(old(self).address(), PAGE_REGISTER, PAGE_0, Ok(())),
            ] && tx_input(added(final(self).trace(), old(self).trace())[1]).len() == 1
                && r == Ok::<u8, Error>((tx_input(added(final(self).trace(), old(self).trace())[1])[0] % 4) as u8)
                && final(self).page() == PAGE_0,
            final(self).page() == PAGE_1 ==> r is Err,
            final(self).address() == old(self).address(),
            final(self).mode() == old(self).mode(),
    {
        let ghost t0 = self.trace();
        let ghost mut fe: Option<BusError> = None;
        assert(added(t0, t0) =~= Seq::<Transaction>::empty());
        assert(t0.subrange(0, t0.len() as int) =~= t0);
        let ghost before = self.trace();
        match self.set_page(PAGE_1) {
            Ok(()) => {},
            Err(e) => {
                proof {
            assert(self.trace().subrange(0, before.len() as int) =~= before);
            fe = lemma_grow(t0, before, self.trace(), fe);
        }
                return Err(e);
            },
        }
        proof {
            assert(self.trace().subrange(0, before.len() as int) =~= before);
            fe = lemma_grow(t0, before, self.trace(), fe);
        }
        let ghost before = self.trace();
        let value = self.read_register(ACCEL_CONFIG_REGISTER);
        proof {
            assert(self.trace().subrange(0, before.len() as int) =~= before);
            fe = lemma_grow(t0, before, self.trace(), fe);
        }
        let ghost before = self.trace();
        let restore = self.set_page(PAGE_0);
        proof {
            assert(self.trace().subrange(0, before.len() as int) =~= before);
            fe = lemma_grow(t0, before, self.trace(), fe);
        }
        assert(added(self.trace(), t0).last() == self.trace().last());
        assert(added(self.trace(), t0)[0] == self.trace()[t0.len() as int]);
        match value {
            Err(e) => Err(e),
            Ok(v) => match restore {
                Err(e) => Err(e),
                Ok(()) => {
                    let code: u8 = v & 0x03;
                    assert(code == v % 4) by (bit_vector)
                        requires code == v & 0x03;
                    proof {
                        let tail = added(self.trace(), t0);
                        assert(tail[1] == self.trace()[t0.len() as int + 1]);
                        assert(tx_input(tail[1]) =~= seq![v]);
                        lemma_ok_unit(tx_result(tail[0]));
                        lemma_ok_unit(tx_result(tail[1]));
                        lemma_ok_unit(tx_result(tail[2]));
                        assert(tail =~= seq![
                            write_tx(self.address, PAGE_REGISTER, PAGE_1, Ok(())),
                            read_tx(self.address, ACCEL_CONFIG_REGISTER, tx_input(tail[1]), Ok(())),
                            write_tx(self.address, PAGE_REGISTER, PAGE_0, Ok(())),
                        ]);
                    }
                    Ok(code)
                },
            },
        }
    }

    /// Writes the accelerometer range code `range` into the low two bits of
    /// the accelerometer configuration (page 1), keeping its other bits, then
    /// selects page 0 again, also when the read or the write fails.
    pub fn set_accel_range(&mut self, range: u8) -> (r: Result<(), Error>)
        requires
            range <= 3,
        ensures
            page_restore_outcome(old(self).trace(), final(self).trace(), old(self).address(), r),
            r is Ok ==> added(final(self).trace(), old(self).trace()) == seq![
                write_tx(old(self).address(), PAGE_REGISTER, PAGE_1, Ok(())),
                read_tx(old(self).address(), ACCEL_CONFIG_REGISTER,
                    tx_input(added(final(self).trace(), old(self).trace())[1]), Ok(())),
                write_tx(old(self).address(), ACCEL_CONFIG_REGISTER,
                    (tx_input(added(final(self).trace(), old(self).trace())[1])[0] / 4 * 4 + range) as u8, Ok(())),
                write_tx(old(self).address(), PAGE_REGISTER, PAGE_0, Ok(())),
            ] && tx_input(added(final(self).trace(), old(self).trace())[1]).len() == 1
                && final(self).page() == PAGE_0,
            final(self).page() == PAGE_1 ==> r is Err,
            final(self).address() == old(self).address(),
            final(self).mode() == old(self).mode(),
    {
        let ghost t0 = self.trace();
        let ghost mut fe: Option<BusError> = None;
        assert(added(t0, t0) =~= Seq::<Transaction>::empty());
        assert(t0.subrange(0, t0.len() as int) =~= t0);
        let ghost before = self.trace();
        match self.set_page(PAGE_1) {
            Ok(()) => {},
            Err(e) => {
                proof {
            assert(self.trace().subrange(0, before.len() as int) =~= before);
            fe = lemma_grow(t0, before, self.trace(), fe);
        }
                return Err(e);
            },
        }
        proof {
            assert(self.trace().subrange(0, before.len() as int) =~= before);
            fe = lemma_grow(t0, before, self.trace(), fe);
        }
        let ghost before = self.trace();
        let mut inner: Result<(), Error> = Ok(());
        match self.read_register(ACCEL_CONFIG_REGISTER) {
            Ok(v) => {
                proof {
            assert(self.trace().subrange(0, before.len() as int) =~= before);
            fe = lemma_grow(t0, before, self.trace(), fe);
        }
                let written: u8 = (v & 0xFC) | range;
                assert(written == v / 4 * 4 + range) by (bit_vector)
                    requires written == (v & 0xFC) | range, range <= 3;
                let ghost before = self.trace();
                inner = self.write_register(ACCEL_CONFIG_REGISTER, written);
                proof {
            assert(self.trace().subrange(0, before.len() as int) =~= before);
            fe = lemma_grow(t0, before, self.trace(), fe);
        }
            },
            Err(e) => {
                proof {
            assert(self.trace().subrange(0, before.len() as int) =~= before);
            fe = lemma_grow(t0, before, self.trace(), fe);
        }
                inner = Err(e);
            },
        }
        assert(inner is Ok ==> fe is None);
        assert(inner matches Err(Error::Bus(e)) ==> fe == Some(e));
        let ghost before = self.trace();
        let restore = self.set_page(PAGE_0);
        proof {
            assert(self.trace().subrange(0, before.len() as int) =~= before);
            fe = lemma_grow(t0, before, self.trace(), fe);
        }
        assert(added(self.trace(), t0).last() == self.trace().last());
        assert(added(self.trace(), t0)[0] == self.trace()[t0.len() as int]);
        match inner {
            Err(e) => Err(e),
            Ok(()) => match restore {
                Err(e) => Err(e),
                Ok(()) => {
                    proof {
                        let tail = added(self.trace(), t0);
                        assert(tail[1] == self.trace()[t0.len() as int + 1]);
                        assert(tail[2] == self.trace()[t0.len() as int + 2]);
                        lemma_ok_unit(tx_result(tail[0]));
                        lemma_ok_unit(tx_result(tail[1]));
                        lemma_ok_unit(tx_result(tail[2]));
                        lemma_ok_unit(tx_result(tail[3]));
                        assert(tail =~= seq![
                            write_tx(self.address, PAGE_REGISTER, PAGE_1, Ok(())),
                            read_tx(self.address, ACCEL_CONFIG_REGISTER, tx_input(tail[1]), Ok(())),
                            write_tx(self.address, ACCEL_CONFIG_REGISTER,
                                (tx_input(tail[1])[0] / 4 * 4 + range) as u8, Ok(())),
                            write_tx(self.address, PAGE_REGISTER, PAGE_0, Ok(())),
                        ]);
                    }
                    Ok(())
                },
            },
        }
    }
}

} // verus!
