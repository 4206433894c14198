use vstd::prelude::*;
use vstd::utf8::{decode_utf8, valid_utf8};

verus! {

/// A vector that holds at most `N` items.
pub struct ArrayVec<T, const N: usize> {
    items: Vec<T>,
}

impl<T, const N: usize> View for ArrayVec<T, N> {
    type V = Seq<T>;

    closed spec fn view(&self) -> Seq<T> {
        self.items@
    }
}

impl<T, const N: usize> ArrayVec<T, N> {
    pub closed spec fn wf(&self) -> bool {
        self.items@.len() <= N
    }

    pub fn new() -> (r: Self)
        ensures
            r.wf(),
            r@ == Seq::<T>::empty(),
    {
        ArrayVec { items: Vec::new() }
    }

    pub fn len(&self) -> (r: usize)
        ensures
            r == self@.len(),
    {
        self.items.len()
    }

    pub fn is_full(&self) -> (r: bool)
        ensures
            r == (self@.len() >= N),
    {
        self.items.len() >= N
    }

    pub fn clear(&mut self)
        ensures
            final(self).wf(),
            final(self)@ == Seq::<T>::empty(),
    {
        self.items.clear();
    }

    /// Appends `item`; the vector must not be full.
    pub fn push(&mut self, item: T)
        requires
            old(self).wf(),
            old(self)@.len() < N,
        ensures
            final(self).wf(),
            final(self)@ == old(self)@.push(item),
    {
        self.items.push(item);
    }

    pub fn as_slice(&self) -> (r: &[T])
        ensures
            r@ == self@,
    {
        self.items.as_slice()
    }
}

/// Relies on `std::str::from_utf8`: it succeeds exactly on valid UTF-8, and
/// the string then holds the characters the bytes encode.
#[verifier::external_body]
fn utf8_chars(bytes: &[u8]) -> (r: Option<Vec<char>>)
    ensures
        r is Some <==> valid_utf8(bytes@),
        r matches Some(v) ==> v@ == decode_utf8(bytes@),
{
    std::str::from_utf8(bytes).ok().map(|s| s.chars().collect())
}

/// Decodes characters from UTF-8 bytes, one at a time.
pub struct CharIter {
    bytes: Vec<u8>,
    pos: usize,
}

/// The number of bytes that one decoding step may read from `remaining` bytes.
pub open spec fn step_width(remaining: int) -> int {
    if remaining < 4 {
        remaining
    } else {
        4
    }
}

/// Reading from `p`, the first `k` bytes form valid UTF-8 and no fewer do;
/// `c` is the character they encode, and reading stops at `q == p + k`.
pub open spec fn decodes_one(b: Seq<u8>, p: int, c: char, q: int) -> bool {
    exists|k: int|
        1 <= k <= step_width(b.len() - p) && valid_utf8(#[trigger] b.subrange(p, p + k)) && (
        forall|k2: int| 1 <= k2 < k ==> !valid_utf8(#[trigger] b.subrange(p, p + k2))) && c
            == decode_utf8(b.subrange(p, p + k))[0] && q == p + k
}

/// No run of at most four bytes from `p` is valid UTF-8; reading stops after
/// them at `q`.
pub open spec fn decodes_none(b: Seq<u8>, p: int, q: int) -> bool {
    &&& forall|k: int| 1 <= k <= step_width(b.len() - p) ==> !valid_utf8(#[trigger] b.subrange(p, p + k))
    &&& q == p + step_width(b.len() - p)
}

impl CharIter {
    pub closed spec fn bytes(&self) -> Seq<u8> {
        self.bytes@
    }

    pub closed spec fn pos(&self) -> int {
        self.pos as int
    }

    pub closed spec fn wf(&self) -> bool {
        self.pos <= self.bytes@.len()
    }

    pub fn new(bytes: Vec<u8>) -> (r: Self)
        ensures
            r.wf(),
            r.bytes() == bytes@,
            r.pos() == 0,
    {
        CharIter { bytes, pos: 0 }
    }

    /// Reads bytes until they form valid UTF-8, at most four of them, and
    /// returns the character they encode; `None` if they never do.
    pub fn next(&mut self) -> (r: Option<char>)
        requires
            old(self).wf(),
        ensures
            final(self).wf(),
            final(self).bytes() == old(self).bytes(),
            match r {
                Some(c) => decodes_one(old(self).bytes(), old(self).pos(), c, final(self).pos()),
                None => decodes_none(old(self).bytes(), old(self).pos(), final(self).pos()),
            },
    {
        let ghost b = self.bytes@;
        let ghost p = self.pos as int;
        let mut buf: ArrayVec<u8, 4> = ArrayVec::new();
        while !buf.is_full() && self.pos < self.bytes.len()
            invariant
                self.wf(),
                buf.wf(),
                self.bytes@ == b,
                b == old(self).bytes@,
                p == old(self).pos,
                0 <= p <= self.pos <= b.len(),
                buf@.len() == self.pos - p,
                buf@ == b.subrange(p, self.pos as int),
                forall|k2: int| 1 <= k2 <= buf@.len() ==> !valid_utf8(#[trigger] b.subrange(p, p + k2)),
            decreases self.bytes@.len() - self.pos,
        {
            let byte = self.bytes[self.pos];
            let ghost before = buf@;
            buf.push(byte);
            assert(before.push(byte) =~= b.subrange(p, self.pos + 1));
            self.pos = self.pos + 1;
            if let Some(v) = utf8_chars(buf.as_slice()) {
                assert(decode_utf8(buf@).len() >= 1);
                let c = v[0];
                assert(decodes_one(b, p, c, self.pos as int)) by {
                    let k = self.pos - p;
                    assert(buf@ == b.subrange(p, p + k));
                    assert(k <= step_width(b.len() - p));
                    assert(v@[0] == decode_utf8(b.subrange(p, p + k))[0]);
                }
                return Some(c);
            }
        }
        None
    }
}

/// An iterator over `items` that remembers every item it has handed out, so
/// that views can replay them.
pub struct HistoryIter<T> {
    items: Vec<T>,
    history: Vec<T>,
}

impl<T: Copy> HistoryIter<T> {
    /// All the items, handed out or not.
    pub closed spec fn source(&self) -> Seq<T> {
        self.items@
    }

    /// The items handed out so far.
    pub closed spec fn history(&self) -> Seq<T> {
        self.history@
    }

    pub closed spec fn wf(&self) -> bool {
        &&& self.history@.len() <= self.items@.len()
        &&& self.history@ == self.items@.take(self.history@.len() as int)
    }

    pub fn new(items: Vec<T>) -> (r: Self)
        ensures
            r.wf(),
            r.source() == items@,
            r.history() == Seq::<T>::empty(),
    {
        let r = HistoryIter { items, history: Vec::new() };
        assert(r.history@ =~= r.items@.take(0));
        r
    }

    /// The next item of the source, which is remembered.
    pub fn next(&mut self) -> (r: Option<T>)
        requires
            old(self).wf(),
        ensures
            final(self).wf(),
            final(self).source() == old(self).source(),
            ({
                let n = old(self).history().len();
                if n < old(self).source().len() {
                    &&& r == Some(old(self).source()[n as int])
                    &&& final(self).history() == old(self).history().push(old(self).source()[n as int])
                } else {
                    r is None && final(self).history() == old(self).history()
                }
            }),
    {
        let n = self.history.len();
        if n < self.items.len() {
            let item = self.items[n];
            self.history.push(item);
            assert(self.history@ =~= self.items@.take(n + 1));
            Some(item)
        } else {
            None
        }
    }

    pub fn history_len(&self) -> (r: usize)
        ensures
            r == self.history().len(),
    {
        self.history.len()
    }
}

/// A cursor over a [`HistoryIter`] that sees the whole sequence from the
/// start, replaying remembered items and drawing new ones when caught up.
pub struct HistoryIterView {
    current: usize,
}

impl HistoryIterView {
    pub closed spec fn current(&self) -> int {
        self.current as int
    }

    pub fn new() -> (r: Self)
        ensures
            r.current() == 0,
    {
        HistoryIterView { current: 0 }
    }

    /// Whether every remembered item has been seen through this view.
    pub fn is_caught_up<T: Copy>(&self, source: &HistoryIter<T>) -> (r: bool)
        ensures
            r == (self.current() >= source.history().len()),
    {
        self.current >= source.history_len()
    }

    /// The item at this view's position in the source sequence, if any.
    pub fn next<T: Copy>(&mut self, source: &mut HistoryIter<T>) -> (r: Option<T>)
        requires
            old(source).wf(),
            old(self).current() <= old(source).history().len(),
            old(source).source().len() < usize::MAX,
        ensures
            final(source).wf(),
            final(source).source() == old(source).source(),
            final(self).current() <= final(source).history().len(),
            old(self).current() < old(source).source().len() ==> r == Some(
                old(source).source()[old(self).current()],
            ) && final(self).current() == old(self).current() + 1,
            old(self).current() >= old(source).source().len() ==> r is None
                && final(self).current() == old(self).current(),
    {
        if self.current >= source.history_len() {
            let r = source.next();
            if r.is_some() {
                self.current = self.current + 1;
            }
            r
        } else {
            let item = source.history[self.current];
            self.current = self.current + 1;
            Some(item)
        }
    }
}

} // verus!
