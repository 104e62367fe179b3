//! Driver for the TSA8418 keypad scanner on an I2C bus shared between
//! threads.

use vstd::prelude::*;
use embedded_hal::i2c::I2c;
use embedded_hal_bus::i2c::{AtomicDevice, AtomicError};
use linux_embedded_hal::{I2cdev, I2CError};

verus! {

/// The scanner's bus address.
pub const TSA8418_ADDR: u8 = 0x34;
/// Keypad/GPIO selection register for the rows.
pub const REG_KP_GPIO1: u8 = 0x1D;
/// Keypad/GPIO selection register for the columns.
pub const REG_KP_GPIO2: u8 = 0x1E;
/// The head of the key event FIFO.
pub const REG_KEY_EVENT_A: u8 = 0x04;
/// Key lock and event count register.
pub const REG_KEY_LCK_EC: u8 = 0x03;

#[verifier::external_type_specification]
#[verifier::external_body]
#[verifier::reject_recursive_types(T)]
pub struct ExAtomicDevice<'a, T>(AtomicDevice<'a, T>);


#[verifier::external_type_specification]
#[verifier::external_body]
pub struct ExI2cdev(I2cdev);

#[verifier::external_type_specification]
#[verifier::external_body]
pub struct ExI2CError(I2CError);

/// A failed transfer on the shared keypad bus.
#[derive(Debug)]
pub enum BusError {
    /// Another user held the bus.
    Busy,
    /// The transfer itself failed.
    Other(I2CError),
}

/// Calls `I2c::write_read` of `embedded_hal_bus::i2c::AtomicDevice`: writes
/// `write` to the device at `address`, then reads into `read` in one bus
/// transaction. Only the length of `read` is claimed to stay the same: the
/// bytes read come from the device. The bus error is carried over variant
/// by variant.
#[verifier::external_body]
fn bus_write_read<'a>(
    bus: &mut AtomicDevice<'a, I2cdev>,
    address: u8,
    write: &[u8],
    read: &mut [u8],
) -> (r: Result<(), BusError>)
    ensures
        final(read)@.len() == old(read)@.len(),
{
    match bus.write_read(address, write, read) {
        Ok(()) => Ok(()),
        Err(AtomicError::Busy) => Err(BusError::Busy),
        Err(AtomicError::Other(e)) => Err(BusError::Other(e)),
    }
}

/// Calls `I2c::write` of `embedded_hal_bus::i2c::AtomicDevice`: writes the
/// bytes to the device at `address`. Whether it succeeds depends on the
/// bus and the device, so nothing is claimed of the result. The bus error
/// is carried over variant by variant.
#[verifier::external_body]
fn bus_write<'a>(bus: &mut AtomicDevice<'a, I2cdev>, address: u8, write: &[u8]) -> (r: Result<
    (),
    BusError,
>) {
    match bus.write(address, write) {
        Ok(()) => Ok(()),
        Err(AtomicError::Busy) => Err(BusError::Busy),
        Err(AtomicError::Other(e)) => Err(BusError::Other(e)),
    }
}

/// The number of queued key events, held in the low four bits of the key
/// lock and event count register.
pub fn pending_events(lck_ec: u8) -> (n: u8)
    ensures
        n == lck_ec % 16,
        n < 16,
{
    let n = lck_ec & 0x0F;
    assert(lck_ec & 0x0Fu8 == lck_ec % 16) by (bit_vector);
    n
}

/// One bus transfer that the driver issued to the scanner, with what the
/// bus call returned.
pub enum BusTransfer {
    /// `bytes` written to the device at `address`.
    Write { address: u8, bytes: Seq<u8>, outcome: Result<(), BusError> },
    /// `sent` written to the device at `address`, then `received` read back
    /// in the same transaction (whatever the read buffer held afterwards).
    WriteRead {
        address: u8,
        sent: Seq<u8>,
        received: Seq<u8>,
        outcome: Result<(), BusError>,
    },
}

/// What the bus call of transfer `t` returned.
pub open spec fn outcome(t: BusTransfer) -> Result<(), BusError> {
    match t {
        BusTransfer::Write { outcome, .. } => outcome,
        BusTransfer::WriteRead { outcome, .. } => outcome,
    }
}

/// The bus call of transfer `t` succeeded.
pub open spec fn succeeded(t: BusTransfer) -> bool {
    outcome(t) is Ok
}

/// `t` writes `value` to register `reg` of the device at `address`.
pub open spec fn is_register_write(t: BusTransfer, address: u8, reg: u8, value: u8) -> bool {
    match t {
        BusTransfer::Write { address: a, bytes, .. } => a == address && bytes == seq![reg, value],
        BusTransfer::WriteRead { .. } => false,
    }
}

/// `t` reads one byte from register `reg` of the device at `address`.
pub open spec fn is_register_read(t: BusTransfer, address: u8, reg: u8) -> bool {
    match t {
        BusTransfer::WriteRead { address: a, sent, received, .. } => a == address && sent
            == seq![reg] && received.len() == 1,
        BusTransfer::Write { .. } => false,
    }
}

/// The first byte that transfer `t` read back.
pub open spec fn read_byte(t: BusTransfer) -> u8 {
    match t {
        BusTransfer::WriteRead { received, .. } => received[0],
        BusTransfer::Write { .. } => 0,
    }
}

/// The result of a register read: the byte read when the bus call
/// succeeded, its error unchanged otherwise.
pub open spec fn read_result(t: BusTransfer) -> Result<u8, BusError> {
    match outcome(t) {
        Ok(_) => Ok(read_byte(t)),
        Err(e) => Err(e),
    }
}

/// `new` begins with the transfers `old`.
pub open spec fn extends(new: Seq<BusTransfer>, old: Seq<BusTransfer>) -> bool {
    &&& old.len() <= new.len()
    &&& forall|i: int| 0 <= i < old.len() ==> new[i] == old[i]
}

/// The transfer that comes `i`-th in a set-up of the scanner at `address`:
/// the row selection, the column selection, a read of the event count, then
/// reads of the event queue.
pub open spec fn init_step(address: u8, i: int, t: BusTransfer) -> bool {
    if i == 0 {
        is_register_write(t, address, REG_KP_GPIO1, 0b1111)
    } else if i == 1 {
        is_register_write(t, address, REG_KP_GPIO2, 0b111)
    } else if i == 2 {
        is_register_read(t, address, REG_KEY_LCK_EC)
    } else {
        is_register_read(t, address, REG_KEY_EVENT_A)
    }
}

/// `s` is a set-up of the scanner at `address` that may go on: every
/// transfer is in its place and succeeded, the queue is only read when the
/// event count is not zero, and every event read so far was not 0.
pub open spec fn init_progress(address: u8, s: Seq<BusTransfer>) -> bool {
    &&& forall|i: int| 0 <= i < s.len() ==> init_step(address, i, #[trigger] s[i])
    &&& forall|i: int| 0 <= i < s.len() ==> succeeded(#[trigger] s[i])
    &&& s.len() > 3 ==> read_byte(s[2]) % 16 != 0
    &&& forall|i: int| 3 <= i < s.len() ==> read_byte(#[trigger] s[i]) != 0
}

/// `s` and `r` are a whole set-up run of the scanner at `address`: the
/// transfers in their places, each one issued only when all before it
/// succeeded. A failed transfer is the last one, and its error is the
/// result. Otherwise the result is `Ok`, after the event count read when the
/// count is 0, or else after the first event read that returned 0 (or after
/// `u64::MAX + 1` event reads).
pub open spec fn init_run(address: u8, s: Seq<BusTransfer>, r: Result<(), BusError>) -> bool {
    &&& s.len() >= 1
    &&& init_progress(address, s.drop_last())
    &&& init_step(address, s.len() - 1, s.last())
    &&& s.len() > 3 ==> read_byte(s[2]) % 16 != 0
    &&& match r {
        Err(e) => outcome(s.last()) == Err::<(), BusError>(e),
        Ok(_) => {
            &&& succeeded(s.last())
            &&& s.len() >= 3
            &&& s.len() == 3 ==> read_byte(s[2]) % 16 == 0
            &&& s.len() > 3 ==> (read_byte(s.last()) == 0 || s.len() == 3 + u64::MAX + 1)
        },
    }
}

proof fn lemma_push_skip(before: Seq<BusTransfer>, after: Seq<BusTransfer>, k: int)
    requires
        0 <= k <= before.len(),
        after.len() == before.len() + 1,
        extends(after, before),
    ensures
        after.skip(k) == before.skip(k).push(after.last()),
{
    assert(after.skip(k) =~= before.skip(k).push(after.last()));
}

proof fn lemma_run_ends(address: u8, p: Seq<BusTransfer>, t: BusTransfer, r: Result<(), BusError>)
    requires
        init_progress(address, p),
        init_step(address, p.len() as int, t),
        p.len() >= 3 ==> read_byte(p[2]) % 16 != 0,
        r is Err ==> outcome(t) == r,
        r is Ok ==> succeeded(t) && p.len() >= 3 && (read_byte(t) == 0 || p.len() == 3 + u64::MAX),
    ensures
        init_run(address, p.push(t), r),
{
    assert(p.push(t).drop_last() =~= p);
    if p.len() >= 3 {
        assert(p.push(t)[2] == p[2]);
    }
}

proof fn lemma_progress_step(address: u8, p: Seq<BusTransfer>, t: BusTransfer)
    requires
        init_progress(address, p),
        init_step(address, p.len() as int, t),
        succeeded(t),
        p.len() == 3 ==> read_byte(p[2]) % 16 != 0,
        p.len() >= 3 ==> read_byte(t) != 0,
    ensures
        init_progress(address, p.push(t)),
{
    let q = p.push(t);
    assert forall|i: int| 0 <= i < q.len() implies init_step(address, i, #[trigger] q[i]) by {
        if i < p.len() {
            assert(q[i] == p[i]);
        }
    }
    assert forall|i: int| 0 <= i < q.len() implies succeeded(#[trigger] q[i]) by {
        if i < p.len() {
            assert(q[i] == p[i]);
        }
    }
    assert forall|i: int| 3 <= i < q.len() implies read_byte(#[trigger] q[i]) != 0 by {
        if i < p.len() {
            assert(q[i] == p[i]);
        }
    }
    if q.len() > 3 {
        assert(q[2] == p[2]);
    }
}

/// Set-up enables the whole 4-row by 3-column keypad: whatever the bus
/// answers, its first transfer writes to register 0x1D a value with the four
/// row bits (0 to 3) set and no other, and its second, if made, writes to
/// register 0x1E a value with the three column bits (0 to 2) set and no
/// other, both at the scanner's address.
pub proof fn lemma_setup_enables_keypad(address: u8, s: Seq<BusTransfer>, r: Result<(), BusError>)
    requires
        init_run(address, s, r),
    ensures
        s[0] matches BusTransfer::Write { address: a, bytes, .. } && a == address && bytes.len()
            == 2 && bytes[0] == 0x1D && bytes[1] % 16 == 15 && bytes[1] < 16,
        s.len() >= 2 ==> (s[1] matches BusTransfer::Write { address: a, bytes, .. } && a == address
            && bytes.len() == 2 && bytes[0] == 0x1E && bytes[1] % 8 == 7 && bytes[1] < 8),
{
    if s.len() == 1 {
        assert(s[0] == s.last());
    } else {
        assert(s[0] == s.drop_last()[0]);
        assert(init_step(address, 0, s.drop_last()[0]));
        if s.len() == 2 {
            assert(s[1] == s.last());
        } else {
            assert(s[1] == s.drop_last()[1]);
            assert(init_step(address, 1, s.drop_last()[1]));
        }
    }
}

/// The keypad scanner at a bus address.
pub struct TSA8418<I2C> {
    i2c: I2C,
    address: u8,
    transfers: Ghost<Seq<BusTransfer>>,
}

impl<I2C> TSA8418<I2C> {
    /// The bus address the driver talks to.
    pub closed spec fn address(&self) -> u8 {
        self.address
    }

    /// The transfers the driver has issued so far, oldest first.
    pub closed spec fn transfers(&self) -> Seq<BusTransfer> {
        self.transfers@
    }
}

impl<'a> TSA8418<AtomicDevice<'a, I2cdev>> {
    /// A driver for the scanner at `address` on bus `i2c`.
    pub fn new(i2c: AtomicDevice<'a, I2cdev>, address: u8) -> (s: Self)
        ensures
            s.address() == address,
            s.transfers() == Seq::<BusTransfer>::empty(),
    {
        Self { i2c, address, transfers: Ghost(Seq::empty()) }
    }

    /// Sets the scanner up for a keypad of four rows and three columns, and
    /// empties its event queue if it holds events.
    ///
    /// The queue is read until it reports no event; the loop gives up after
    /// `u64::MAX + 1` reads, a number no device reaches. A failed transfer
    /// ends the set-up at once with its error.
    pub fn init(&mut self) -> (r: Result<(), BusError>)
        ensures
            final(self).address() == old(self).address(),
            extends(final(self).transfers(), old(self).transfers()),
            init_run(
                old(self).address(),
                final(self).transfers().skip(old(self).transfers().len() as int),
                r,
            ),
    {
        let ghost start = self.transfers();
        let ghost addr = self.address;
        let ghost k = start.len() as int;
        assert(start.skip(k) =~= Seq::<BusTransfer>::empty());
        // four rows
        let ghost before = self.transfers();
        let rows = self.write_reg(REG_KP_GPIO1, 0b1111);
        proof {
            lemma_push_skip(before, self.transfers(), k);
        }
        if let Err(e) = rows {
            proof {
                lemma_run_ends(addr, before.skip(k), self.transfers().last(), Err(e));
            }
            return Err(e);
        }
        proof {
            lemma_progress_step(addr, before.skip(k), self.transfers().last());
        }
        // three columns
        let ghost before = self.transfers();
        let columns = self.write_reg(REG_KP_GPIO2, 0b111);
        proof {
            lemma_push_skip(before, self.transfers(), k);
        }
        if let Err(e) = columns {
            proof {
                lemma_run_ends(addr, before.skip(k), self.transfers().last(), Err(e));
            }
            return Err(e);
        }
        proof {
            lemma_progress_step(addr, before.skip(k), self.transfers().last());
        }
        let ghost before = self.transfers();
        let count = self.available();
        proof {
            lemma_push_skip(before, self.transfers(), k);
        }
        let count = match count {
            Err(e) => {
                proof {
                    lemma_run_ends(addr, before.skip(k), self.transfers().last(), Err(e));
                }
                return Err(e);
            },
            Ok(n) => n,
        };
        if count == 0 {
            proof {
                assert(self.transfers().skip(k).drop_last() =~= before.skip(k));
                assert(self.transfers().skip(k)[2] == self.transfers().last());
            }
            return Ok(());
        }
        proof {
            lemma_progress_step(addr, before.skip(k), self.transfers().last());
        }
        let mut reads_left: u64 = u64::MAX;
        loop
            invariant
                self.address() == addr,
                addr == old(self).address(),
                start == old(self).transfers(),
                k == start.len(),
                extends(self.transfers(), start),
                init_progress(addr, self.transfers().skip(k)),
                self.transfers().skip(k).len() == 3 + (u64::MAX - reads_left),
                read_byte(self.transfers().skip(k)[2]) % 16 != 0,
            decreases reads_left,
        {
            let ghost before = self.transfers();
            let event = self.get_event();
            proof {
                lemma_push_skip(before, self.transfers(), k);
                assert(before.skip(k)[2] == self.transfers().skip(k)[2]);
            }
            match event {
                Err(e) => {
                    proof {
                        lemma_run_ends(addr, before.skip(k), self.transfers().last(), Err(e));
                    }
                    return Err(e);
                },
                Ok(ev) => {
                    if ev == 0 || reads_left == 0 {
                        proof {
                            lemma_run_ends(addr, before.skip(k), self.transfers().last(), Ok(()));
                        }
                        return Ok(());
                    }
                    proof {
                        lemma_progress_step(addr, before.skip(k), self.transfers().last());
                    }
                    reads_left = reads_left - 1;
                },
            }
        }
    }

    /// The number of key events waiting in the scanner's queue: the low four
    /// bits of the byte read from the event count register, or the bus error
    /// of that read.
    pub fn available(&mut self) -> (r: Result<u8, BusError>)
        ensures
            final(self).address() == old(self).address(),
            final(self).transfers().len() == old(self).transfers().len() + 1,
            extends(final(self).transfers(), old(self).transfers()),
            is_register_read(final(self).transfers().last(), old(self).address(), REG_KEY_LCK_EC),
            r == (match read_result(final(self).transfers().last()) {
                Ok(b) => Ok((b % 16) as u8),
                Err(e) => Err(e),
            }),
    {
        let content = self.read_reg(REG_KEY_LCK_EC)?;
        Ok(pending_events(content))
    }

    /// Takes the next key event from the queue (0 when it is empty;
    /// 0x01 to 0x50 and 0x81 to 0xD0 for keys, 0x5B to 0x72 and 0xDB to
    /// 0xF2 for GPIO lines): the byte read from the event queue register,
    /// or the bus error of that read.
    pub fn get_event(&mut self) -> (r: Result<u8, BusError>)
        ensures
            final(self).address() == old(self).address(),
            final(self).transfers().len() == old(self).transfers().len() + 1,
            extends(final(self).transfers(), old(self).transfers()),
            is_register_read(final(self).transfers().last(), old(self).address(), REG_KEY_EVENT_A),
            r == read_result(final(self).transfers().last()),
    {
        self.read_reg(REG_KEY_EVENT_A)
    }

    /// Reads register `register_idx` in one write-read transfer: the byte
    /// read, or the bus error unchanged.
    fn read_reg(&mut self, register_idx: u8) -> (r: Result<u8, BusError>)
        ensures
            final(self).address() == old(self).address(),
            final(self).transfers().len() == old(self).transfers().len() + 1,
            extends(final(self).transfers(), old(self).transfers()),
            is_register_read(final(self).transfers().last(), old(self).address(), register_idx),
            r == read_result(final(self).transfers().last()),
    {
        let mut register_buf = [0u8; 1];
        let index = [register_idx];
        let result = bus_write_read(&mut self.i2c, self.address, &index, &mut register_buf);
        assert(index@ =~= seq![register_idx]);
        self.transfers = Ghost(
            self.transfers@.push(
                BusTransfer::WriteRead {
                    address: self.address,
                    sent: index@,
                    received: register_buf@,
                    outcome: result,
                },
            ),
        );
        match result {
            Ok(()) => Ok(register_buf[0]),
            Err(e) => Err(e),
        }
    }

    /// Writes `value` to register `reg_addr` in one transfer; the result is
    /// what the bus returned.
    fn write_reg(&mut self, reg_addr: u8, value: u8) -> (r: Result<(), BusError>)
        ensures
            final(self).address() == old(self).address(),
            final(self).transfers().len() == old(self).transfers().len() + 1,
            extends(final(self).transfers(), old(self).transfers()),
            is_register_write(final(self).transfers().last(), old(self).address(), reg_addr, value),
            r == outcome(final(self).transfers().last()),
    {
        let reg_buf = [reg_addr, value];
        let result = bus_write(&mut self.i2c, self.address, &reg_buf);
        assert(reg_buf@ =~= seq![reg_addr, value]);
        self.transfers = Ghost(
            self.transfers@.push(
                BusTransfer::Write { address: self.address, bytes: reg_buf@, outcome: result },
            ),
        );
        result
    }
}

} // verus!
