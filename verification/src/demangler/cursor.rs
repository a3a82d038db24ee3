use vstd::prelude::*;

verus! {

/// The byte of `s` at `pos`, if `pos` lies inside `s`.
pub open spec fn byte_at(s: Seq<u8>, pos: int) -> Option<u8> {
    if 0 <= pos < s.len() {
        Some(s[pos])
    } else {
        None
    }
}

/// A sequential reader over a byte buffer whose read position can be saved,
/// moved and restored.
pub struct Cursor {
    buf: Vec<u8>,
    pos: usize,
}

impl Cursor {
    /// The bytes under the cursor; no operation changes them.
    pub closed spec fn bytes(&self) -> Seq<u8> {
        self.buf@
    }

    /// The absolute read position. It may lie behind the end of the buffer,
    /// where there is nothing to read.
    pub closed spec fn position(&self) -> int {
        self.pos as int
    }

    /// The read position and the length of the buffer fit a machine word.
    pub proof fn lemma_fits(&self)
        ensures
            0 <= self.position() <= usize::MAX,
            self.bytes().len() <= usize::MAX,
    {
        assert(self.buf@.len() == self.buf.len());
    }

    /// A cursor at the start of `buf`.
    pub fn new(buf: Vec<u8>) -> (cursor: Cursor)
        ensures
            cursor.bytes() == buf@,
            cursor.position() == 0,
    {
        Cursor { buf, pos: 0 }
    }

    /// The length of the buffer.
    pub fn len(&self) -> (n: usize)
        ensures
            n == self.bytes().len(),
    {
        self.buf.len()
    }

    /// The whole buffer.
    pub fn buf(&self) -> (buf: &[u8])
        ensures
            buf@ == self.bytes(),
    {
        self.buf.as_slice()
    }

    /// Whether the byte at the absolute position `idx` is `byte`.
    pub fn is_at(&self, idx: usize, byte: u8) -> (found: bool)
        ensures
            found == (byte_at(self.bytes(), idx as int) == Some(byte)),
    {
        idx < self.buf.len() && self.buf[idx] == byte
    }

    /// The absolute read position.
    pub fn pos(&self) -> (p: usize)
        ensures
            p == self.position(),
    {
        self.pos
    }

    /// Moves the read position to `pos`.
    pub fn set_pos(&mut self, pos: usize)
        ensures
            final(self).bytes() == old(self).bytes(),
            final(self).position() == pos,
    {
        self.pos = pos;
    }

    /// Moves the read position by `delta` bytes, forwards or backwards.
    pub fn offset(&mut self, delta: isize)
        requires
            0 <= old(self).position() + delta <= usize::MAX,
        ensures
            final(self).bytes() == old(self).bytes(),
            final(self).position() == old(self).position() + delta,
    {
        if delta >= 0 {
            self.pos = self.pos + (delta as usize);
        } else {
            let back: usize = (-(delta + 1)) as usize;
            self.pos = self.pos - back - 1;
        }
    }

    /// The byte at the absolute position `idx`, if the buffer has one there.
    pub fn get(&self, idx: usize) -> (byte: Option<u8>)
        ensures
            byte == byte_at(self.bytes(), idx as int),
    {
        if idx < self.buf.len() {
            Some(self.buf[idx])
        } else {
            None
        }
    }

    /// Reads the next byte and steps over it; at the end of the buffer it
    /// returns `None` and stays.
    pub fn consume(&mut self) -> (byte: Option<u8>)
        ensures
            final(self).bytes() == old(self).bytes(),
            byte == byte_at(old(self).bytes(), old(self).position()),
            final(self).position() == old(self).position() + (if byte.is_some() {
                1int
            } else {
                0int
            }),
    {
        if self.pos < self.buf.len() {
            let byte = self.buf[self.pos];
            self.pos = self.pos + 1;
            Some(byte)
        } else {
            None
        }
    }

    /// Steps over the next byte if it equals `byte`, and says whether it did.
    pub fn take(&mut self, byte: u8) -> (taken: bool)
        ensures
            final(self).bytes() == old(self).bytes(),
            taken == (byte_at(old(self).bytes(), old(self).position()) == Some(byte)),
            final(self).position() == old(self).position() + (if taken {
                1int
            } else {
                0int
            }),
    {
        if self.pos < self.buf.len() && self.buf[self.pos] == byte {
            self.pos = self.pos + 1;
            true
        } else {
            false
        }
    }
}

} // verus!
