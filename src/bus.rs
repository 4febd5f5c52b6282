use vstd::prelude::*;

verus! {

/// A transport failure: NACK, timeout or arbitration loss, with the
/// transport's own error code.
#[derive(Clone, Copy, Debug, PartialEq, Eq, Structural)]
pub struct BusError {
    pub code: i32,
}

/// One bus transaction as the transport saw it.
#[allow(inconsistent_fields)]
pub enum Transaction {
    /// `bytes` written to `address`.
    Write { address: u8, bytes: Seq<u8>, timeout: u32, result: Result<(), BusError> },
    /// `out` written to `address`, then `input` read back.
    WriteRead { address: u8, out: Seq<u8>, input: Seq<u8>, timeout: u32, result: Result<(), BusError> },
    /// A blocking wait.
    Delay { ms: u32 },
}

/// The blocking two-wire transport that the driver owns. `trace` is the
/// sequence of transactions performed on it so far; each method appends
/// its own transaction.
pub trait Bus {
    spec fn trace(&self) -> Seq<Transaction>;

    /// Writes `bytes` to the device at `address`.
    fn write(&mut self, address: u8, bytes: &[u8], timeout: u32) -> (r: Result<(), BusError>)
        ensures
            final(self).trace() == old(self).trace().push(
                Transaction::Write { address, bytes: bytes@, timeout, result: r }),
    ;

    /// Writes `bytes`, then reads as many bytes as `buffer` holds.
    fn write_read(&mut self, address: u8, bytes: &[u8], buffer: &mut [u8], timeout: u32) -> (r: Result<(), BusError>)
        ensures
            final(self).trace() == old(self).trace().push(
                Transaction::WriteRead { address, out: bytes@, input: final(buffer)@, timeout, result: r }),
    ;

    /// Blocks for `ms` milliseconds.
    fn delay_ms(&mut self, ms: u32)
        ensures
            final(self).trace() == old(self).trace().push(Transaction::Delay { ms }),
    ;
}

/// A blocking two-wire transport: what a platform provides.
pub trait Transport {
    /// Writes `bytes` to the device at `address`.
    fn write(&mut self, address: u8, bytes: &[u8], timeout: u32) -> Result<(), BusError>;

    /// Writes `bytes`, then reads as many bytes as `buffer` holds.
    fn write_read(&mut self, address: u8, bytes: &[u8], buffer: &mut [u8], timeout: u32) -> Result<(), BusError>;

    /// Blocks for `ms` milliseconds.
    fn delay_ms(&mut self, ms: u32);
}

/// A transport together with the record of every call made on it.
pub struct TracedBus<T: Transport> {
    transport: T,
    trace: Ghost<Seq<Transaction>>,
}

impl<T: Transport> TracedBus<T> {
    /// Wraps `transport`, with nothing recorded yet.
    pub fn new(transport: T) -> (r: Self)
        ensures
            r.trace() == Seq::<Transaction>::empty(),
    {
        TracedBus { transport, trace: Ghost(Seq::empty()) }
    }

    /// Gives the transport back.
    pub fn into_inner(self) -> T {
        self.transport
    }
}

impl<T: Transport> Bus for TracedBus<T> {
    closed spec fn trace(&self) -> Seq<Transaction> {
        self.trace@
    }

    fn write(&mut self, address: u8, bytes: &[u8], timeout: u32) -> (r: Result<(), BusError>) {
        let r = self.transport.write(address, bytes, timeout);
        self.trace = Ghost(self.trace@.push(Transaction::Write { address, bytes: bytes@, timeout, result: r }));
        r
    }

    fn write_read(&mut self, address: u8, bytes: &[u8], buffer: &mut [u8], timeout: u32) -> (r: Result<(), BusError>) {
        let r = self.transport.write_read(address, bytes, buffer, timeout);
        self.trace = Ghost(self.trace@.push(
            Transaction::WriteRead { address, out: bytes@, input: buffer@, timeout, result: r }));
        r
    }

    fn delay_ms(&mut self, ms: u32) {
        self.transport.delay_ms(ms);
        self.trace = Ghost(self.trace@.push(Transaction::Delay { ms }));
    }
}

} // verus!
