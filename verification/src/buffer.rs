//! Character buffers for line editing: a plain `Buffer` with bounds-checked
//! insert and remove, and a `CursorBuffer` that pairs a `Buffer` with a
//! cursor offset and keeps `0 <= cursor <= len` as a type invariant.
use vstd::prelude::*;
use vstd::utf8::{char_is_scalar, encode_scalar, encode_utf8, is_scalar};

verus! {

/// Error produced by a rejected buffer edit; the buffer is left unchanged.
#[derive(Debug, PartialEq, Eq, Clone, Copy)]
pub enum BufferError {
    /// The requested start offset lies past the end of the buffer.
    InvalidStartIndex,
    /// Removing `count` characters starting at `at` would run past the end.
    DeleteCountOverflow { at: usize, count: usize },
}

impl BufferError {
    /// The error's text.
    pub open spec fn spec_message(&self) -> Seq<char> {
        match self {
            BufferError::InvalidStartIndex => "Invalid start index, must be <= buf len"@,
            BufferError::DeleteCountOverflow { .. } => "Delete count overflows buf len"@,
        }
    }

    /// The error's text.
    pub fn message(&self) -> (r: &'static str)
        ensures
            r@ == self.spec_message(),
    {
        match self {
            BufferError::InvalidStartIndex => "Invalid start index, must be <= buf len",
            BufferError::DeleteCountOverflow { .. } => "Delete count overflows buf len",
        }
    }
}

/// The contents of `s` with `chars` inserted at offset `at`.
pub open spec fn seq_inserted(s: Seq<char>, at: int, chars: Seq<char>) -> Seq<char> {
    s.subrange(0, at) + chars + s.subrange(at, s.len() as int)
}

/// The contents of `s` with the `count` characters starting at `at` removed.
pub open spec fn seq_removed(s: Seq<char>, at: int, count: int) -> Seq<char> {
    s.subrange(0, at) + s.subrange(at + count, s.len() as int)
}

/// An ordered sequence of characters with no inherent cursor.
#[derive(Debug)]
pub struct Buffer {
    buf: Vec<char>,
}

impl View for Buffer {
    type V = Seq<char>;

    closed spec fn view(&self) -> Seq<char> {
        self.buf@
    }
}

impl Default for Buffer {
    /// An empty buffer.
    fn default() -> (r: Self)
        ensures
            r@ == Seq::<char>::empty(),
    {
        Buffer { buf: Vec::new() }
    }
}

impl Buffer {
    /// Creates an empty buffer.
    pub fn new() -> (r: Self)
        ensures
            r@ == Seq::<char>::empty(),
    {
        Buffer { buf: Vec::new() }
    }

    /// Number of characters held.
    pub fn len(&self) -> (r: usize)
        ensures
            r == self@.len(),
    {
        self.buf.len()
    }

    /// True exactly when the buffer holds no characters.
    pub fn is_empty(&self) -> (r: bool)
        ensures
            r == (self@.len() == 0),
    {
        self.buf.len() == 0
    }

    /// Removes every character.
    pub fn clear(&mut self)
        ensures
            final(self)@ == Seq::<char>::empty(),
    {
        self.buf.clear();
    }

    /// The UTF-8 encoding of the buffer contents.
    pub fn as_bytes(&self) -> (r: Vec<u8>)
        ensures
            r@ == encode_utf8(self@),
    {
        let mut out: Vec<u8> = Vec::new();
        let n = self.buf.len();
        for i in 0..n
            invariant
                n == self.buf@.len(),
                out@ == encode_utf8(self.buf@.subrange(0, i as int)),
        {
            proof {
                lemma_encode_utf8_take_step(self.buf@, i as int);
            }
            push_utf8(&mut out, self.buf[i]);
        }
        proof {
            assert(self.buf@.subrange(0, n as int) =~= self.buf@);
        }
        out
    }

    /// Read-only access to the characters held.
    pub fn chars(&self) -> (r: &Vec<char>)
        ensures
            r@ == self@,
    {
        &self.buf
    }

    /// Inserts `chars` at offset `at`, shifting the tail right; rejects an
    /// offset past the end and then leaves the buffer unchanged.
    pub fn insert(&mut self, at: usize, chars: &[char]) -> (r: Result<(), BufferError>)
        ensures
            at > old(self)@.len() ==> r == Err::<(), BufferError>(BufferError::InvalidStartIndex)
                && final(self)@ == old(self)@,
            at <= old(self)@.len() ==> r == Ok::<(), BufferError>(())
                && final(self)@ == seq_inserted(old(self)@, at as int, chars@),
    {
        if at > self.buf.len() {
            return Err(BufferError::InvalidStartIndex);
        }

        let mut tail = self.buf.split_off(at);
        let n = chars.len();
        for i in 0..n
            invariant
                n == chars@.len(),
                self.buf@ == old(self)@.subrange(0, at as int) + chars@.subrange(0, i as int),
                tail@ == old(self)@.subrange(at as int, old(self)@.len() as int),
        {
            self.buf.push(chars[i]);
            proof {
                assert(old(self)@.subrange(0, at as int) + chars@.subrange(0, i as int)
                    + seq![chars@[i as int]]
                    =~= old(self)@.subrange(0, at as int) + chars@.subrange(0, i + 1));
            }
        }
        self.buf.append(&mut tail);
        proof {
            assert(chars@.subrange(0, n as int) =~= chars@);
            assert(self.buf@ =~= seq_inserted(old(self)@, at as int, chars@));
        }
        Ok(())
    }

    /// Removes `count` characters starting at `at` and returns them; rejects
    /// a start past the end or a range past the end, leaving the buffer
    /// unchanged.
    pub fn remove(&mut self, at: usize, count: usize) -> (r: Result<Vec<char>, BufferError>)
        ensures
            at > old(self)@.len() ==> r == Err::<Vec<char>, BufferError>(
                BufferError::InvalidStartIndex,
            ) && final(self)@ == old(self)@,
            at <= old(self)@.len() && at + count > old(self)@.len() ==> r == Err::<
                Vec<char>,
                BufferError,
            >(BufferError::DeleteCountOverflow { at, count }) && final(self)@ == old(self)@,
            at + count <= old(self)@.len() ==> (r matches Ok(removed)
                && removed@ == old(self)@.subrange(at as int, at + count)
                && final(self)@ == seq_removed(old(self)@, at as int, count as int)),
    {
        if at > self.buf.len() {
            return Err(BufferError::InvalidStartIndex);
        }

        if count > self.buf.len() - at {
            return Err(BufferError::DeleteCountOverflow { at, count });
        }

        self.remove_from_to(at, at + count)
    }

    /// Removes the characters in `at..to` and returns them; the bounds must
    /// already be known valid.
    pub fn remove_from_to(&mut self, at: usize, to: usize) -> (r: Result<Vec<char>, BufferError>)
        requires
            at <= to <= old(self)@.len(),
        ensures
            (r matches Ok(removed) && removed@ == old(self)@.subrange(at as int, to as int)
                && final(self)@ == seq_removed(old(self)@, at as int, to - at)),
    {
        let mut tail = self.buf.split_off(to);
        let removed = self.buf.split_off(at);
        self.buf.append(&mut tail);
        proof {
            assert(removed@ =~= old(self)@.subrange(at as int, to as int));
            assert(self.buf@ =~= seq_removed(old(self)@, at as int, to - at));
        }
        Ok(removed)
    }
}

/// The side of the cursor an edit acts on.
#[derive(Debug, Clone, Copy, PartialEq, Eq)]
pub enum Direction {
    Left,
    Right,
}

/// A `Buffer` paired with a cursor offset; every edit is expressed relative
/// to the cursor, and `0 <= cursor <= len` holds in every reachable state.
#[derive(Debug)]
pub struct CursorBuffer {
    cur_pos: usize,
    buf: Buffer,
}

impl View for CursorBuffer {
    type V = Seq<char>;

    closed spec fn view(&self) -> Seq<char> {
        self.buf@
    }
}

impl Default for CursorBuffer {
    /// An empty buffer with the cursor at offset 0.
    fn default() -> (r: Self)
        ensures
            r@ == Seq::<char>::empty(),
            r.spec_pos() == 0,
            r.wf(),
    {
        CursorBuffer { cur_pos: 0, buf: Buffer::new() }
    }
}

impl CursorBuffer {
    /// The cursor offset.
    pub closed spec fn spec_pos(&self) -> nat {
        self.cur_pos as nat
    }

    /// Well-formedness: the cursor never leaves the buffer. Constructors
    /// establish it and every operation preserves it, so
    /// `0 <= cursor <= len` holds in every reachable state.
    pub open spec fn wf(&self) -> bool {
        self.spec_pos() <= self@.len()
    }

    /// Creates an empty buffer with the cursor at offset 0.
    pub fn new() -> (r: Self)
        ensures
            r@ == Seq::<char>::empty(),
            r.spec_pos() == 0,
            r.wf(),
    {
        CursorBuffer { cur_pos: 0, buf: Buffer::new() }
    }

    /// Number of characters held.
    pub fn len(&self) -> (r: usize)
        ensures
            r == self@.len(),
    {
        self.buf.len()
    }

    /// True exactly when the buffer holds no characters.
    pub fn is_empty(&self) -> (r: bool)
        ensures
            r == (self@.len() == 0),
    {
        self.buf.is_empty()
    }

    /// Removes every character and resets the cursor to 0.
    pub fn clear(&mut self)
        ensures
            final(self)@ == Seq::<char>::empty(),
            final(self).spec_pos() == 0,
            final(self).wf(),
    {
        self.buf.clear();
        self.cur_pos = 0;
    }

    /// The UTF-8 encoding of the buffer contents.
    pub fn as_bytes(&self) -> (r: Vec<u8>)
        ensures
            r@ == encode_utf8(self@),
    {
        self.buf.as_bytes()
    }

    /// Moves the cursor one character left; reports whether it moved.
    pub fn move_left(&mut self) -> (r: bool)
        requires
            old(self).wf(),
        ensures
            final(self)@ == old(self)@,
            r == (old(self).spec_pos() > 0),
            final(self).spec_pos() == if old(self).spec_pos() > 0 {
                old(self).spec_pos() - 1
            } else {
                0
            },
            final(self).wf(),
    {
        if self.cur_pos > 0 {
            self.cur_pos = self.cur_pos - 1;
            true
        } else {
            false
        }
    }

    /// Moves the cursor one character right; reports whether it moved.
    pub fn move_right(&mut self) -> (r: bool)
        requires
            old(self).wf(),
        ensures
            final(self)@ == old(self)@,
            r == (old(self).spec_pos() < old(self)@.len()),
            final(self).spec_pos() == if old(self).spec_pos() < old(self)@.len() {
                old(self).spec_pos() + 1
            } else {
                old(self).spec_pos()
            },
            final(self).wf(),
    {
        if self.cur_pos < self.buf.len() {
            self.cur_pos = self.cur_pos + 1;
            true
        } else {
            false
        }
    }

    /// Read-only access to the characters held.
    pub fn chars(&self) -> (r: &Vec<char>)
        ensures
            r@ == self@,
    {
        self.buf.chars()
    }

    /// The cursor offset.
    pub fn get_pos(&self) -> (r: usize)
        requires
            self.wf(),
        ensures
            r == self.spec_pos(),
            r <= self@.len(),
    {
        self.cur_pos
    }

    /// Inserts `chars` at the cursor and advances the cursor past them.
    /// The start offset is checked defensively, but the cursor invariant
    /// makes the check pass, so the call always succeeds.
    pub fn insert(&mut self, chars: &[char]) -> (r: Result<(), BufferError>)
        requires
            old(self).wf(),
        ensures
            r == Ok::<(), BufferError>(()),
            final(self)@ == seq_inserted(old(self)@, old(self).spec_pos() as int, chars@),
            final(self).spec_pos() == old(self).spec_pos() + chars@.len(),
            final(self).wf(),
    {
        let n = chars.len();
        match self.buf.insert(self.cur_pos, chars) {
            Ok(()) => {
                let l = self.buf.len();
                self.cur_pos = self.cur_pos + n;
                Ok(())
            },
            Err(e) => Err(e),  // unreachable: the cursor invariant bounds the offset
        }
    }

    /// Removes exactly one character: to the left of the cursor (moving it
    /// back) or at the cursor (leaving it in place).
    pub fn remove_one(&mut self, dir: Direction) -> (r: Result<Vec<char>, BufferError>)
        requires
            old(self).wf(),
        ensures
            dir is Left && old(self).spec_pos() == 0 ==> r == Err::<Vec<char>, BufferError>(
                BufferError::InvalidStartIndex,
            ) && final(self)@ == old(self)@ && final(self).spec_pos() == old(self).spec_pos(),
            dir is Left && old(self).spec_pos() > 0 ==> (r matches Ok(removed) && removed@
                == old(self)@.subrange(old(self).spec_pos() - 1, old(self).spec_pos() as int)
                && final(self)@
                == seq_removed(old(self)@, old(self).spec_pos() - 1, 1) && final(self).spec_pos()
                == old(self).spec_pos() - 1),
            dir is Right && old(self).spec_pos() == old(self)@.len() ==> r == Err::<
                Vec<char>,
                BufferError,
            >(
                BufferError::DeleteCountOverflow { at: old(self).spec_pos() as usize, count: 1 },
            ) && final(self)@ == old(self)@ && final(self).spec_pos() == old(self).spec_pos(),
            dir is Right && old(self).spec_pos() < old(self)@.len() ==> (r matches Ok(removed)
                && removed@ == old(self)@.subrange(
                old(self).spec_pos() as int,
                old(self).spec_pos() + 1 as int,
            ) && final(self)@ == seq_removed(old(self)@, old(self).spec_pos() as int, 1)
                && final(self).spec_pos() == old(self).spec_pos()),
            final(self).wf(),
    {
        self.remove_many(1, dir)
    }

    /// Removes `count` characters next to the cursor: the `count` before it
    /// (moving the cursor back) or the `count` at and after it (leaving the
    /// cursor in place). A range that leaves the buffer is rejected and the
    /// buffer is unchanged.
    pub fn remove_many(&mut self, count: usize, dir: Direction) -> (r: Result<
        Vec<char>,
        BufferError,
    >)
        requires
            old(self).wf(),
        ensures
            dir is Left && count > old(self).spec_pos() ==> r == Err::<Vec<char>, BufferError>(
                BufferError::InvalidStartIndex,
            ) && final(self)@ == old(self)@ && final(self).spec_pos() == old(self).spec_pos(),
            dir is Left && count <= old(self).spec_pos() ==> (r matches Ok(removed) && removed@
                == old(self)@.subrange(old(self).spec_pos() - count, old(self).spec_pos() as int)
                && final(self)@ == seq_removed(
                old(self)@,
                old(self).spec_pos() - count,
                count as int,
            ) && final(self).spec_pos() == old(self).spec_pos() - count),
            dir is Right && old(self).spec_pos() + count > old(self)@.len() ==> r == Err::<
                Vec<char>,
                BufferError,
            >(
                BufferError::DeleteCountOverflow {
                    at: old(self).spec_pos() as usize,
                    count: count,
                },
            ) && final(self)@ == old(self)@ && final(self).spec_pos() == old(self).spec_pos(),
            dir is Right && old(self).spec_pos() + count <= old(self)@.len() ==> (r matches Ok(
                removed,
            ) && removed@ == old(self)@.subrange(
                old(self).spec_pos() as int,
                old(self).spec_pos() + count as int,
            ) && final(self)@ == seq_removed(old(self)@, old(self).spec_pos() as int, count as int)
                && final(self).spec_pos() == old(self).spec_pos()),
            final(self).wf(),
    {
        match dir {
            Direction::Left => {
                if count > self.cur_pos {
                    return Err(BufferError::InvalidStartIndex);
                }
                match self.buf.remove(self.cur_pos - count, count) {
                    Ok(removed) => {
                        self.cur_pos = self.cur_pos - count;
                        Ok(removed)
                    },
                    Err(e) => Err(e),  // unreachable: the range was checked above
                }
            },
            Direction::Right => {
                if count > self.buf.len() - self.cur_pos {
                    return Err(BufferError::DeleteCountOverflow { at: self.cur_pos, count });
                }
                self.buf.remove(self.cur_pos, count)
            },
        }
    }
}

/// Law: inserting characters and then removing as many to the left restores
/// the contents the buffer had before the insertion.
pub proof fn lemma_insert_then_remove_left_restores(s: Seq<char>, pos: int, chars: Seq<char>)
    requires
        0 <= pos <= s.len(),
    ensures
        seq_removed(seq_inserted(s, pos, chars), pos, chars.len() as int) == s,
{
    assert(seq_removed(seq_inserted(s, pos, chars), pos, chars.len() as int) =~= s);
}

/// Appends the UTF-8 encoding of `c` to `out`.
fn push_utf8(out: &mut Vec<u8>, c: char)
    ensures
        final(out)@ == old(out)@ + encode_scalar(c as u32),
{
    proof {
        char_is_scalar(c);
    }
    let v = c as u32;
    if v <= 0x7F {
        out.push((v & 0x7F) as u8);
    } else if v <= 0x7FF {
        out.push(0xC0 | ((v >> 6) & 0x1F) as u8);
        out.push(0x80 | (v & 0x3F) as u8);
    } else if v <= 0xFFFF {
        out.push(0xE0 | ((v >> 12) & 0x0F) as u8);
        out.push(0x80 | ((v >> 6) & 0x3F) as u8);
        out.push(0x80 | (v & 0x3F) as u8);
    } else {
        out.push(0xF0 | ((v >> 18) & 0x7) as u8);
        out.push(0x80 | ((v >> 12) & 0x3F) as u8);
        out.push(0x80 | ((v >> 6) & 0x3F) as u8);
        out.push(0x80 | (v & 0x3F) as u8);
    }
    proof {
        assert(final(out)@ =~= old(out)@ + encode_scalar(c as u32));
    }
}

/// Encoding one more character extends the encoding of a prefix.
proof fn lemma_encode_utf8_take_step(s: Seq<char>, i: int)
    requires
        0 <= i < s.len(),
    ensures
        encode_utf8(s.subrange(0, i + 1)) == encode_utf8(s.subrange(0, i)) + encode_scalar(
            s[i] as u32,
        ),
    decreases i,
{
    if i == 0 {
        let sub = s.subrange(0, 1);
        assert(sub.len() == 1 && sub[0] == s[0]);
        assert(sub.drop_first() =~= Seq::<char>::empty());
        assert(encode_utf8(Seq::<char>::empty()) == Seq::<u8>::empty());
        assert(encode_utf8(sub) == encode_scalar(sub[0] as u32) + encode_utf8(sub.drop_first()));
        assert(s.subrange(0, 0) =~= Seq::<char>::empty());
        assert(encode_utf8(s.subrange(0, i + 1)) =~= encode_utf8(s.subrange(0, i)) + encode_scalar(
            s[i] as u32,
        ));
    } else {
        let t = s.drop_first();
        lemma_encode_utf8_take_step(t, i - 1);
        assert(s.subrange(0, i + 1).drop_first() =~= t.subrange(0, i));
        assert(s.subrange(0, i).drop_first() =~= t.subrange(0, i - 1));
        assert(encode_utf8(s.subrange(0, i + 1)) == encode_scalar(s[0] as u32) + encode_utf8(
            t.subrange(0, i),
        ));
        assert(encode_utf8(s.subrange(0, i)) == encode_scalar(s[0] as u32) + encode_utf8(
            t.subrange(0, i - 1),
        ));
        assert(encode_utf8(s.subrange(0, i + 1)) =~= encode_utf8(s.subrange(0, i)) + encode_scalar(
            s[i] as u32,
        ));
    }
}

} // verus!
