//! Reading from and writing to the tunnel device: what the outcome of each
//! system call means.

use vstd::prelude::*;

verus! {

/// How often the registration of the tunnel device is tried.
pub const REGISTER_ATTEMPTS: u32 = 500;

/// How long, in milliseconds, to wait before the registration is tried again.
pub const REGISTER_DELAY_MS: u64 = 10;

/// The size of the buffer that packets are read into.
pub const READ_BUFFER_LEN: usize = 65536;

/// Why a system call failed.
#[derive(Clone, Copy, PartialEq, Eq, Structural)]
pub enum IoFailure {
    /// The device is not ready.
    WouldBlock,
    /// A signal came in between.
    Interrupted,
    /// Any other reason.
    Other,
}

/// What follows a call that writes a packet.
#[derive(Clone, Copy, PartialEq, Eq, Structural)]
pub enum WriteAction {
    /// The packet is written.
    Done,
    /// The rest is written once the device is ready again.
    WaitWritable,
    /// The call is made again.
    Retry,
    /// The packet cannot be written.
    Fail,
    /// The device takes no more octets.
    Closed,
}

/// How much of a packet is written.
pub struct PacketWriter {
    written: usize,
    len: usize,
}

/// What follows a call on a packet of `len` octets, `written` of which were
/// written before it. The call returned `n`, with `failure` where that is
/// negative.
pub open spec fn write_action(written: int, len: int, n: int, failure: IoFailure) -> WriteAction {
    if n > 0 {
        if written + n == len {
            WriteAction::Done
        } else {
            WriteAction::WaitWritable
        }
    } else if n < 0 {
        match failure {
            IoFailure::WouldBlock => WriteAction::WaitWritable,
            IoFailure::Interrupted => WriteAction::Retry,
            IoFailure::Other => WriteAction::Fail,
        }
    } else {
        WriteAction::Closed
    }
}

/// How many octets are written after a call that returned `n`.
pub open spec fn written_after(written: int, n: int) -> int {
    if n > 0 {
        written + n
    } else {
        written
    }
}

impl PacketWriter {
    /// How many octets are written.
    pub closed spec fn done(&self) -> int {
        self.written as int
    }

    /// How many octets the packet has.
    pub closed spec fn total(&self) -> int {
        self.len as int
    }

    /// No more is written than there is.
    #[verifier::type_invariant]
    spec fn within_packet(self) -> bool {
        self.written <= self.len
    }

    /// Begins to write a packet of `len` octets.
    pub fn new(len: usize) -> (writer: PacketWriter)
        ensures
            writer.done() == 0,
            writer.total() == len,
    {
        PacketWriter { written: 0, len }
    }

    /// Where the rest of the packet starts.
    pub fn offset(&self) -> (offset: usize)
        ensures
            offset == self.done(),
    {
        self.written
    }

    /// How many octets are left to write.
    pub fn remaining(&self) -> (remaining: usize)
        ensures
            remaining == self.total() - self.done(),
    {
        proof {
            use_type_invariant(self);
        }
        self.len - self.written
    }

    /// Notes what a call that was to write the rest returned.
    pub fn step(&mut self, n: isize, failure: IoFailure) -> (action: WriteAction)
        requires
            n <= old(self).total() - old(self).done(),
        ensures
            0 <= final(self).done() <= final(self).total(),
            final(self).total() == old(self).total(),
            final(self).done() == written_after(old(self).done(), n as int),
            action == write_action(old(self).done(), old(self).total(), n as int, failure),
            n > 0 ==> final(self).done() == old(self).done() + n,
            n <= 0 ==> final(self).done() == old(self).done(),
            action == WriteAction::Done <==> n > 0 && old(self).done() + n == old(self).total(),
            action == WriteAction::WaitWritable <==> (n > 0 && old(self).done() + n
                < old(self).total()) || (n < 0 && failure == IoFailure::WouldBlock),
            action == WriteAction::Retry <==> n < 0 && failure == IoFailure::Interrupted,
            action == WriteAction::Fail <==> n < 0 && failure == IoFailure::Other,
            action == WriteAction::Closed <==> n == 0,
    {
        proof {
            use_type_invariant(&*self);
        }
        if n > 0 {
            self.written = self.written + n as usize;
            if self.written == self.len {
                WriteAction::Done
            } else {
                WriteAction::WaitWritable
            }
        } else if n < 0 {
            match failure {
                IoFailure::WouldBlock => WriteAction::WaitWritable,
                IoFailure::Interrupted => WriteAction::Retry,
                IoFailure::Other => WriteAction::Fail,
            }
        } else {
            WriteAction::Closed
        }
    }
}

/// How many octets are written after calls that returned `results`.
pub open spec fn written_by(results: Seq<int>) -> int
    decreases results.len(),
{
    if results.len() == 0 {
        0
    } else {
        written_after(written_by(results.drop_last()), results.last())
    }
}

/// What the device has got of `packet` after calls that returned `results`, each
/// of which was given what the calls before it had left.
pub open spec fn received(packet: Seq<u8>, results: Seq<int>) -> Seq<u8>
    decreases results.len(),
{
    if results.len() == 0 {
        seq![]
    } else {
        let before = results.drop_last();
        let n = results.last();
        if n > 0 {
            received(packet, before) + packet.subrange(
                written_by(before),
                written_by(before) + n,
            )
        } else {
            received(packet, before)
        }
    }
}

/// Whether no call reports more octets than it was given.
pub open spec fn plausible(len: int, results: Seq<int>) -> bool {
    forall|i: int|
        0 <= i < results.len() ==> #[trigger] results[i] <= len - written_by(results.take(i))
}

/// However a packet is split over calls, the device gets its octets in order and
/// each of them once; when the writing is done, it has got the whole packet.
pub proof fn law_packet_is_written_once(packet: Seq<u8>, results: Seq<int>, failure: IoFailure)
    requires
        plausible(packet.len() as int, results),
    ensures
        0 <= written_by(results) <= packet.len(),
        received(packet, results) == packet.take(written_by(results)),
        results.len() > 0 && write_action(
            written_by(results.drop_last()),
            packet.len() as int,
            results.last(),
            failure,
        ) == WriteAction::Done ==> received(packet, results) == packet,
    decreases results.len(),
{
    if results.len() > 0 {
        let before = results.drop_last();
        assert(results.take(results.len() - 1) =~= before);
        assert(results[results.len() - 1] == results.last());
        assert forall|i: int| 0 <= i < before.len() implies #[trigger] before[i] <= packet.len()
            - written_by(before.take(i)) by {
            assert(before[i] == results[i]);
            assert(before.take(i) =~= results.take(i));
        }
        law_packet_is_written_once(packet, before, failure);
        assert(received(packet, results) =~= packet.take(written_by(results)));
        assert(packet.take(packet.len() as int) =~= packet);
    } else {
        assert(packet.take(0) =~= seq![]);
    }
}

/// Each call that takes octets moves the writing on by exactly as many, and no
/// other call moves it.
pub proof fn law_progress_is_what_was_taken(results: Seq<int>, n: int)
    ensures
        written_by(Seq::empty()) == 0,
        n > 0 ==> written_by(results.push(n)) == written_by(results) + n,
        n <= 0 ==> written_by(results.push(n)) == written_by(results),
        n > 0 ==> written_after(written_by(results), n) == written_by(results) + n,
        n <= 0 ==> written_after(written_by(results), n) == written_by(results),
{
    assert(results.push(n).drop_last() =~= results);
}

/// What the device gets from one more call that takes `n` octets are the `n`
/// octets of the packet behind those that the calls before it took. A call that
/// takes none adds nothing.
pub proof fn law_device_gets_the_next_octets(packet: Seq<u8>, results: Seq<int>, n: int)
    requires
        plausible(packet.len() as int, results),
        n <= packet.len() - written_by(results),
    ensures
        received(packet, Seq::empty()) == Seq::<u8>::empty(),
        n > 0 ==> received(packet, results.push(n)) == received(packet, results) + packet.subrange(
            received(packet, results).len() as int,
            received(packet, results).len() + n,
        ),
        n <= 0 ==> received(packet, results.push(n)) == received(packet, results),
{
    assert(results.push(n).drop_last() =~= results);
    law_packet_is_written_once(packet, results, IoFailure::Other);
}

/// Writing goes on until the packet is written or cannot be: it is done exactly
/// when a call takes the last octets, goes on after a part or while the device
/// is busy, is tried again after a signal, and ends at any other failure or when
/// the device takes nothing.
pub proof fn law_write_goes_on_until_done(written: int, len: int, n: int, failure: IoFailure)
    requires
        0 <= written <= len,
        n <= len - written,
    ensures
        write_action(written, len, n, failure) == WriteAction::Done <==> n > 0 && written + n
            == len,
        write_action(written, len, n, failure) == WriteAction::WaitWritable <==> (n > 0 && written
            + n < len) || (n < 0 && failure == IoFailure::WouldBlock),
        write_action(written, len, n, failure) == WriteAction::Retry <==> n < 0 && failure
            == IoFailure::Interrupted,
        write_action(written, len, n, failure) == WriteAction::Fail <==> n < 0 && failure
            == IoFailure::Other,
        write_action(written, len, n, failure) == WriteAction::Closed <==> n == 0,
{
}

/// A packet that the device takes whole at once is written, whatever its length.
pub proof fn law_whole_packet_is_done_at_once(packet: Seq<u8>, failure: IoFailure)
    requires
        packet.len() > 0,
    ensures
        write_action(0, packet.len() as int, packet.len() as int, failure) == WriteAction::Done,
        written_after(0, packet.len() as int) == packet.len(),
        received(packet, seq![packet.len() as int]) == packet,
{
    let n = packet.len() as int;
    let none = Seq::<int>::empty();
    law_progress_is_what_was_taken(none, n);
    assert(none.push(n) =~= seq![n]);
    law_device_gets_the_next_octets(packet, none, n);
    assert(packet.subrange(0, n) =~= packet);
}

/// What follows a call that reads a packet.
#[derive(Clone, Copy, PartialEq, Eq, Structural)]
pub enum ReadAction {
    /// A packet of so many octets was read.
    Packet(usize),
    /// There is none until the device is ready again.
    WaitReadable,
    /// The device is closed or broken: the run is over.
    Stop,
}

/// Tells what follows a call that was to read a packet and returned `n`, with
/// `failure` where that is negative.
pub fn read_action(n: isize, failure: IoFailure) -> (action: ReadAction)
    ensures
        action == if n > 0 {
            ReadAction::Packet(n as usize)
        } else if n < 0 && failure == IoFailure::WouldBlock {
            ReadAction::WaitReadable
        } else {
            ReadAction::Stop
        },
{
    if n > 0 {
        ReadAction::Packet(n as usize)
    } else if n < 0 && failure == IoFailure::WouldBlock {
        ReadAction::WaitReadable
    } else {
        ReadAction::Stop
    }
}

/// The attempts to register the tunnel device, which the task of an earlier run
/// may still hold for a moment.
pub struct Registration {
    attempts: u32,
}

impl Registration {
    /// How often the device was found to be held.
    pub closed spec fn failures(&self) -> int {
        self.attempts as int
    }

    /// Begins with the first attempt.
    pub fn new() -> (registration: Registration)
        ensures
            registration.failures() == 0,
    {
        Registration { attempts: 0 }
    }

    /// Whether there is to be another attempt.
    pub fn may_try(&self) -> (r: bool)
        ensures
            r <==> self.failures() < REGISTER_ATTEMPTS,
            r <==> self.failures() < 500,
    {
        self.attempts < REGISTER_ATTEMPTS
    }

    /// Notes that the device was held.
    pub fn note_held(&mut self)
        requires
            old(self).failures() < REGISTER_ATTEMPTS,
        ensures
            final(self).failures() == old(self).failures() + 1,
    {
        self.attempts = self.attempts + 1;
    }
}

/// The status flags to set on the device so that calls on it do not block, given
/// the flags that it has. There are none where the flags could not be read,
/// which -1 stands for.
pub fn nonblocking_flags(flags: i32, nonblock: i32) -> (r: Option<i32>)
    ensures
        r == if flags == -1 {
            None
        } else {
            Some(flags | nonblock)
        },
{
    if flags == -1 {
        None
    } else {
        Some(flags | nonblock)
    }
}

/// The registration is given up after five seconds, and the read buffer holds any
/// IP packet.
pub proof fn law_tunnel_limits()
    ensures
        REGISTER_ATTEMPTS * REGISTER_DELAY_MS == 5000,
        REGISTER_DELAY_MS == 10,
        READ_BUFFER_LEN == 65536,
{
}

} // verus!
