//! Sliding window over the bytes received and not yet consumed.

use vstd::prelude::*;
use vstd::slice::slice_subrange;

use crate::buffer::{copy_at, move_to_front, overwritten};

verus! {

/// Bytes that the window can hold.
pub const RECEIVE_BUFFER_SIZE: usize = 10_240;

/// A first-in, first-out byte queue in one fixed buffer.
///
/// Its view is the queued bytes, oldest first.
pub struct ReceiveWindow {
    storage: &'static mut [u8; RECEIVE_BUFFER_SIZE],
    head: usize,
    length: usize,
}

impl View for ReceiveWindow {
    type V = Seq<u8>;

    closed spec fn view(&self) -> Seq<u8> {
        self.storage@.subrange(self.head as int, self.head + self.length)
    }
}

impl ReceiveWindow {
    /// The queued bytes lie in the buffer.
    pub closed spec fn wf(&self) -> bool {
        self.head + self.length <= RECEIVE_BUFFER_SIZE
    }

    /// Contents of the buffer behind the queued bytes.
    pub closed spec fn slack(&self) -> Seq<u8> {
        self.storage@.skip(self.head + self.length)
    }

    /// An empty window over `storage`, all of which is room behind it.
    pub fn new(storage: &'static mut [u8; RECEIVE_BUFFER_SIZE]) -> (window: Self)
        ensures
            window.wf(),
            window@ == Seq::<u8>::empty(),
            window.slack() == old(storage)@,
    {
        let window = ReceiveWindow { storage, head: 0, length: 0 };
        assert(window.slack() =~= window.storage@);
        window
    }

    /// The queued bytes.
    pub fn data(&self) -> (bytes: &[u8])
        requires
            self.wf(),
        ensures
            bytes@ == self@,
    {
        slice_subrange(self.storage.as_slice(), self.head, self.head + self.length)
    }

    /// Number of queued bytes.
    pub fn len(&self) -> (count: usize)
        requires
            self.wf(),
        ensures
            count == self@.len(),
            count <= RECEIVE_BUFFER_SIZE,
    {
        self.length
    }

    /// Room behind the queued bytes, made by moving them to the front if the
    /// end of the buffer is reached. There is none only when the window is full,
    /// and it is the whole buffer when the window is empty.
    pub fn writable(&mut self) -> (space: Option<&mut [u8]>)
        requires
            old(self).wf(),
        ensures
            final(self).wf(),
            final(self)@ == old(self)@,
            space is None <==> old(self)@.len() == RECEIVE_BUFFER_SIZE,
            space matches Some(bytes) ==> {
                &&& 0 < bytes@.len() <= RECEIVE_BUFFER_SIZE - old(self)@.len()
                &&& if old(self)@.len() == 0 || old(self).slack().len() == 0 {
                    bytes@.len() == RECEIVE_BUFFER_SIZE - old(self)@.len()
                } else {
                    bytes@ == old(self).slack()
                }
                &&& final(self).slack() == final(bytes)@
            },
    {
        if self.length == 0 {
            self.head = 0;
        }
        let ghost queued = self@;
        assert(queued =~= old(self)@);
        let mut write_position: usize = self.head + self.length;
        if write_position == RECEIVE_BUFFER_SIZE && self.head > 0 {
            let bytes: &mut [u8] = &mut *self.storage;
            move_to_front(bytes, self.head, self.length);
            self.head = 0;
            write_position = self.length;
            assert(self@ =~= queued);
        }
        if write_position < RECEIVE_BUFFER_SIZE {
            let bytes: &mut [u8] = &mut *self.storage;
            let (_, space) = bytes.split_at_mut(write_position);
            Some(space)
        } else {
            None
        }
    }

    /// Queues the first `received` bytes that were put behind the window.
    pub fn commit(&mut self, received: usize)
        requires
            old(self).wf(),
            received <= old(self).slack().len(),
        ensures
            final(self).wf(),
            final(self)@ == old(self)@ + old(self).slack().take(received as int),
    {
        self.length = self.length + received;
        assert(self@ =~= old(self)@ + old(self).slack().take(received as int));
    }

    /// Drops the oldest `consumed` bytes. When none is left, the whole buffer is
    /// room again.
    pub fn consume(&mut self, consumed: usize)
        requires
            old(self).wf(),
            consumed <= old(self)@.len(),
        ensures
            final(self).wf(),
            final(self)@ == old(self)@.skip(consumed as int),
            consumed < old(self)@.len() ==> final(self).slack() == old(self).slack(),
            consumed == old(self)@.len() ==> final(self).slack().len() == RECEIVE_BUFFER_SIZE,
    {
        self.head = self.head + consumed;
        self.length = self.length - consumed;
        if self.length == 0 {
            self.head = 0;
        }
        assert(self@ =~= old(self)@.skip(consumed as int));
    }

    /// Moves as many of the oldest bytes as fit into `output`.
    pub fn take_into(&mut self, output: &mut [u8]) -> (copied: usize)
        requires
            old(self).wf(),
        ensures
            final(self).wf(),
            copied == if old(output)@.len() < old(self)@.len() {
                old(output)@.len()
            } else {
                old(self)@.len()
            },
            final(self)@ == old(self)@.skip(copied as int),
            copied < old(self)@.len() ==> final(self).slack() == old(self).slack(),
            copied == old(self)@.len() ==> final(self).slack().len() == RECEIVE_BUFFER_SIZE,
            final(output)@ == overwritten(old(output)@, 0, old(self)@.take(copied as int)),
    {
        let copied: usize = if output.len() < self.length {
            output.len()
        } else {
            self.length
        };
        let oldest = slice_subrange(self.storage.as_slice(), self.head, self.head + copied);
        assert(oldest@ =~= self@.take(copied as int));
        copy_at(output, 0, oldest);
        self.consume(copied);
        copied
    }

    /// Drops all queued bytes; the whole buffer is room again.
    pub fn clear(&mut self)
        requires
            old(self).wf(),
        ensures
            final(self).wf(),
            final(self)@ == Seq::<u8>::empty(),
            final(self).slack().len() == RECEIVE_BUFFER_SIZE,
    {
        self.head = 0;
        self.length = 0;
    }
}

/// A window holds 10240 bytes at most, and an empty one has room for as many.
pub proof fn law_window_has_its_size(
    window: &mut ReceiveWindow,
    other: ReceiveWindow,
    count: usize,
)
    ensures
        call_ensures(ReceiveWindow::clear, (window,), ()) ==> final(window)@.len() == 0
            && final(window).slack().len() == 10_240,
        call_ensures(ReceiveWindow::len, (&other,), count) ==> count == other@.len() && count
            <= 10_240,
{
}

/// Bytes leave a window in the order in which they came: what is taken out and
/// then is left is what was there, and as much is taken out as fits.
pub proof fn law_bytes_leave_in_order(window: &mut ReceiveWindow, output: &mut [u8], copied: usize)
    requires
        window.wf(),
        call_ensures(ReceiveWindow::take_into, (window, output), copied),
    ensures
        copied <= old(window)@.len(),
        copied <= old(output)@.len(),
        copied == old(window)@.len() || copied == old(output)@.len(),
        final(output)@.take(copied as int) + final(window)@ == old(window)@,
        final(output)@.skip(copied as int) == old(output)@.skip(copied as int),
{
    let taken = window@.take(copied as int);
    assert(final(output)@.take(copied as int) =~= taken);
    assert(final(output)@.skip(copied as int) =~= output@.skip(copied as int));
    assert(taken + window@.skip(copied as int) =~= window@);
}

} // verus!
